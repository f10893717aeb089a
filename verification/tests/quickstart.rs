use croniq::compile::compile;
use croniq::parser::Parser;
use croniq::placeholders::HostInputs;
use croniq::quickstart::{croniqfile_text, next_steps_text, SAMPLE_CRONIQFILE};
use croniq::validate::{validate, Severity};

#[test]
fn the_sample_croniqfile_is_clean_and_compiles_its_two_jobs() {
    let ast = Parser::parse(SAMPLE_CRONIQFILE).unwrap();
    let diags = validate(&ast);
    assert!(diags.iter().all(|d| d.severity != Severity::Error), "{diags:?}");
    let rt = compile(&ast, &HostInputs { env: Vec::new(), files: Vec::new() });
    let keys: Vec<&str> = rt.jobs.iter().map(|j| j.key.as_str()).collect();
    assert_eq!(keys, vec!["hello:world", "ops:heartbeat"]);
}

#[test]
fn the_croniqfile_line_says_whether_it_was_created() {
    assert_eq!(croniqfile_text(false, "Croniqfile"), "Created Croniqfile\n");
    assert_eq!(croniqfile_text(true, "Croniqfile"), "Using existing Croniqfile\n");
}

#[test]
fn next_steps_name_the_paths_and_the_login() {
    let t = next_steps_text("Croniqfile", ".data", "pw");
    assert!(t.starts_with("\n=== Quickstart complete! ===\n"));
    assert!(t.contains("  croniq-server --config Croniqfile --data-dir .data --ui-dir ui/dist\n"));
    assert!(t.contains("  croniq-server --config Croniqfile --data-dir .data\n"));
    assert!(t.contains("Login:     admin / pw\n"));
    assert!(t.ends_with("  runner.register(\"hello:world\", |ctx| async { Ok(()) }).await;\n  runner.start().await;\n"));
}
