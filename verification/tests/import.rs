use croniq::import::{resolve_imports, resolve_imports_with_visited, Expansion, ImportError, ImportMatch};

fn found(paths: &[&str]) -> Expansion {
    Expansion::Files(
        paths.iter().map(|p| ImportMatch { path: p.to_string(), canonical: p.to_string() }).collect(),
    )
}

#[test]
fn circular_import_detected() {
    let mut visited = Vec::new();

    // First resolve: a.croniq → visited = {a.croniq}
    let result = resolve_imports_with_visited("a.croniq", found(&["/tmp/d/a.croniq"]), &mut visited);
    assert!(result.is_ok());

    // Second resolve: a.croniq again → circular!
    let result = resolve_imports_with_visited("a.croniq", found(&["/tmp/d/a.croniq"]), &mut visited);
    assert!(matches!(result, Err(ImportError::CircularImport(_))));
}

#[test]
fn non_circular_imports_pass() {
    let mut visited = Vec::new();

    let result_a = resolve_imports_with_visited("a.croniq", found(&["/tmp/d/a.croniq"]), &mut visited);
    assert!(result_a.is_ok());

    let result_b = resolve_imports_with_visited("b.croniq", found(&["/tmp/d/b.croniq"]), &mut visited);
    assert!(result_b.is_ok());
}

#[test]
fn matches_come_back_in_path_order() {
    let r = resolve_imports("jobs/*.croniq", found(&["/d/jobs/b.croniq", "/d/jobs/a.croniq", "/d/jobs/a/x.croniq"]))
        .unwrap();
    // Component order: `a` sorts before `a.croniq` and `b.croniq`.
    assert_eq!(r, vec!["/d/jobs/a/x.croniq", "/d/jobs/a.croniq", "/d/jobs/b.croniq"]);
}

#[test]
fn no_matches_names_the_pattern() {
    let err = resolve_imports("missing/*.croniq", found(&[])).unwrap_err();
    assert_eq!(err.message(), "no files match import pattern 'missing/*.croniq'");
}

#[test]
fn host_failures_become_errors() {
    let err = resolve_imports("x", Expansion::NotUnicode).unwrap_err();
    assert_eq!(err.message(), "invalid import path: 'x'");
    let err = resolve_imports("[", Expansion::BadPattern("/d/[".to_string(), "invalid range".to_string())).unwrap_err();
    assert_eq!(err.message(), "glob error for '/d/[': invalid range");
}

#[test]
fn the_same_file_twice_in_one_expansion_is_circular() {
    let e = Expansion::Files(vec![
        ImportMatch { path: "/d/a.croniq".to_string(), canonical: "/real/a.croniq".to_string() },
        ImportMatch { path: "/d/link.croniq".to_string(), canonical: "/real/a.croniq".to_string() },
    ]);
    let err = resolve_imports("*.croniq", e).unwrap_err();
    assert_eq!(err.message(), "circular import detected: '/d/link.croniq'");
}
