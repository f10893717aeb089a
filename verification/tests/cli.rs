use croniq::cli::{compile_gate, count_jobs, parse_truthy, validation_report, DEFAULT_SERVER_URL};
use croniq::parser::Parser;
use croniq::validate::{validate, Diagnostic, Severity};

fn diag(severity: Severity, message: &str) -> Diagnostic {
    let ast = Parser::parse("job a:b { every 1 minutes }").unwrap();
    Diagnostic { severity, message: message.to_string(), span: ast.span }
}

#[test]
fn truthy_values_read_as_booleans() {
    for t in ["1", "true", "YES", " on "] {
        assert_eq!(parse_truthy(t), Ok(true), "{t}");
    }
    for f in ["0", "False", "no", "off", "", "  "] {
        assert_eq!(parse_truthy(f), Ok(false), "{f}");
    }
    assert_eq!(
        parse_truthy(" Maybe "),
        Err("expected 1/true/yes/on or 0/false/no/off, got 'maybe'".to_string())
    );
}

#[test]
fn a_clean_file_reports_its_jobs() {
    let ast = Parser::parse("job a:b { every 1 minutes }\njob c:d { every 2 minutes }").unwrap();
    let diags = validate(&ast);
    assert_eq!(count_jobs(&ast), 2);
    assert_eq!(validation_report(&diags, count_jobs(&ast)), ("ok: 2 job(s), 0 errors\n".to_string(), false));
}

#[test]
fn errors_and_warnings_are_listed_and_counted() {
    let diags = vec![diag(Severity::Warning, "w1"), diag(Severity::Error, "e1")];
    assert_eq!(
        validation_report(&diags, 1),
        ("warning: w1\nerror: e1\n\n1 error(s), 1 warning(s)\n".to_string(), true)
    );
    let only_warnings = vec![diag(Severity::Warning, "w1")];
    assert_eq!(validation_report(&only_warnings, 1), ("warning: w1\n\n1 warning(s)\n".to_string(), false));
}

#[test]
fn compile_refuses_a_file_with_errors() {
    let diags = vec![diag(Severity::Error, "bad zone")];
    assert_eq!(
        compile_gate(&diags),
        (
            "error: bad zone\n\n1 error(s) — nothing compiled. Run `croniq validate` for the full list.\n"
                .to_string(),
            false
        )
    );
    assert_eq!(compile_gate(&[diag(Severity::Warning, "w")]), ("warning: w\n".to_string(), true));
}

#[test]
fn the_default_server_is_local() {
    assert_eq!(DEFAULT_SERVER_URL, "http://localhost:4000");
}
