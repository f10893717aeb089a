use croniq::lexer::{LexError, Lexer, Span, TokenKind};


    fn tok_kinds(src: &str) -> Vec<TokenKind> {
        Lexer::tokenize(src)
            .unwrap()
            .into_iter()
            .map(|t| t.kind)
            .collect()
    }

    #[test]
    fn empty_input() {
        assert_eq!(tok_kinds(""), vec![TokenKind::Eof]);
    }

    #[test]
    fn simple_block() {
        let kinds = tok_kinds("server { listen :9090 }");
        assert_eq!(
            kinds,
            vec![
                TokenKind::Ident("server".into()),
                TokenKind::LBrace,
                TokenKind::Ident("listen".into()),
                TokenKind::Ident(":9090".into()),
                TokenKind::RBrace,
                TokenKind::Eof,
            ]
        );
    }

    #[test]
    fn job_with_schedule() {
        let kinds = tok_kinds("job billing:invoice { every weekday at 02:00 }");
        assert_eq!(
            kinds,
            vec![
                TokenKind::Ident("job".into()),
                TokenKind::Ident("billing:invoice".into()),
                TokenKind::LBrace,
                TokenKind::Ident("every".into()),
                TokenKind::Ident("weekday".into()),
                TokenKind::Ident("at".into()),
                TokenKind::Ident("02:00".into()),
                TokenKind::RBrace,
                TokenKind::Eof,
            ]
        );
    }

    #[test]
    fn quoted_string() {
        let kinds = tok_kinds(r#"timezone "Europe/Vienna""#);
        assert_eq!(
            kinds,
            vec![
                TokenKind::Ident("timezone".into()),
                TokenKind::QuotedString("Europe/Vienna".into()),
                TokenKind::Eof,
            ]
        );
    }

    #[test]
    fn placeholder() {
        let kinds = tok_kinds("auth token {env.CRONIQ_TOKEN}");
        assert_eq!(
            kinds,
            vec![
                TokenKind::Ident("auth".into()),
                TokenKind::Ident("token".into()),
                TokenKind::Placeholder("env.CRONIQ_TOKEN".into()),
                TokenKind::Eof,
            ]
        );
    }

    #[test]
    fn placeholder_with_default() {
        let kinds = tok_kinds("{$PORT:8080}");
        assert_eq!(
            kinds,
            vec![TokenKind::Placeholder("$PORT:8080".into()), TokenKind::Eof,]
        );
    }

    #[test]
    fn comment() {
        let kinds = tok_kinds("# This is a comment\nserver");
        assert_eq!(
            kinds,
            vec![
                TokenKind::Comment("This is a comment".into()),
                TokenKind::Newline,
                TokenKind::Ident("server".into()),
                TokenKind::Eof,
            ]
        );
    }

    #[test]
    fn semicolons() {
        let kinds = tok_kinds("level info; format json");
        assert_eq!(
            kinds,
            vec![
                TokenKind::Ident("level".into()),
                TokenKind::Ident("info".into()),
                TokenKind::Semicolon,
                TokenKind::Ident("format".into()),
                TokenKind::Ident("json".into()),
                TokenKind::Eof,
            ]
        );
    }

    #[test]
    fn dotdot_range() {
        let kinds = tok_kinds("window 02:00..06:00");
        assert_eq!(
            kinds,
            vec![
                TokenKind::Ident("window".into()),
                TokenKind::Ident("02:00".into()),
                TokenKind::DotDot,
                TokenKind::Ident("06:00".into()),
                TokenKind::Eof,
            ]
        );
    }

    #[test]
    fn string_escapes() {
        let tokens = Lexer::tokenize(r#""hello\nworld""#).unwrap();
        assert_eq!(
            tokens[0].kind,
            TokenKind::QuotedString("hello\nworld".into())
        );
    }

    #[test]
    fn unterminated_string() {
        let err = Lexer::tokenize(r#""hello"#).unwrap_err();
        assert!(matches!(err, LexError::UnterminatedString { .. }));
    }

    #[test]
    fn string_preserves_utf8_multibyte_chars() {
        // The previous byte-as-char implementation would split the
        // em-dash's three UTF-8 bytes (e2 80 94) into three Latin-1 code
        // points (â + 0x80 + 0x94) and re-encode them as UTF-8. This test
        // pins the correct round-trip.
        let tokens = Lexer::tokenize("\"Liveness ping — runs every minute\"").unwrap();
        match &tokens[0].kind {
            TokenKind::QuotedString(s) => {
                assert_eq!(s, "Liveness ping — runs every minute");
                assert_eq!(s.chars().count(), 33);
                assert!(s.contains('—'), "em-dash U+2014 must round-trip intact");
            }
            other => panic!("expected QuotedString, got {other:?}"),
        }

        // Wider coverage: emoji (4-byte UTF-8) + accented Latin (2-byte).
        let tokens = Lexer::tokenize("\"Düsseldorf 🚀\"").unwrap();
        match &tokens[0].kind {
            TokenKind::QuotedString(s) => assert_eq!(s, "Düsseldorf 🚀"),
            other => panic!("expected QuotedString, got {other:?}"),
        }
    }

    #[test]
    fn unterminated_placeholder() {
        let err = Lexer::tokenize("{env.FOO").unwrap_err();
        assert!(matches!(err, LexError::UnterminatedPlaceholder { .. }));
    }

    #[test]
    fn full_job_block() {
        let src = r#"
job billing:invoice-generate {
  every weekday at 02:00 {
    timezone "Europe/Vienna"
    calendar business-days
  }
  window 02:00..06:00
  runner { require billing; prefer eu-central }
  retry exponential { max_attempts 5; base 5s; cap 2m; jitter 0.25 }
  timeout 15m
}
"#;
        let tokens = Lexer::tokenize(src).unwrap();
        // Should not error
        assert!(tokens.last().unwrap().kind == TokenKind::Eof);
        // Check some key tokens
        let idents: Vec<&str> = tokens
            .iter()
            .filter_map(|t| match &t.kind {
                TokenKind::Ident(s) => Some(s.as_str()),
                _ => None,
            })
            .collect();
        assert!(idents.contains(&"job"));
        assert!(idents.contains(&"billing:invoice-generate"));
        assert!(idents.contains(&"every"));
        assert!(idents.contains(&"weekday"));
        assert!(idents.contains(&"window"));
        assert!(idents.contains(&"02:00"));
    }

    #[test]
    fn span_tracking() {
        let tokens = Lexer::tokenize("server { }").unwrap();
        assert_eq!(tokens[0].span, Span::new(0, 6)); // "server"
        assert_eq!(tokens[1].span, Span::new(7, 1)); // "{"
        assert_eq!(tokens[2].span, Span::new(9, 1)); // "}"
    }

    #[test]
    fn import_with_glob() {
        let kinds = tok_kinds("import ./jobs/*.croniq");
        assert_eq!(
            kinds,
            vec![
                TokenKind::Ident("import".into()),
                TokenKind::Ident("./jobs/*.croniq".into()),
                TokenKind::Eof,
            ]
        );
    }

    #[test]
    fn vars_placeholder() {
        let kinds = tok_kinds("{vars.default_tz}");
        assert_eq!(
            kinds,
            vec![
                TokenKind::Placeholder("vars.default_tz".into()),
                TokenKind::Eof,
            ]
        );
    }

    #[test]
    fn monthly_schedule() {
        let kinds = tok_kinds("every 1st 15th of month at 10:00");
        assert_eq!(
            kinds,
            vec![
                TokenKind::Ident("every".into()),
                TokenKind::Ident("1st".into()),
                TokenKind::Ident("15th".into()),
                TokenKind::Ident("of".into()),
                TokenKind::Ident("month".into()),
                TokenKind::Ident("at".into()),
                TokenKind::Ident("10:00".into()),
                TokenKind::Eof,
            ]
        );
    }

#[test]
fn eof_repeats_with_the_same_span() {
    let src = "job \"é\" ";
    let mut lx = Lexer::new(src);
    let mut first = None;
    for _ in 0..10 {
        let t = lx.next_token().unwrap();
        if t.kind == TokenKind::Eof {
            first = Some(t.span);
            break;
        }
    }
    let span = first.unwrap();
    assert_eq!(span, Span::empty(src.len()));
    for _ in 0..3 {
        let t = lx.next_token().unwrap();
        assert_eq!(t.kind, TokenKind::Eof);
        assert_eq!(t.span, span);
    }
}
