use compiledb::{CompileDbError, Config};
use compiledb::env::FixedEnv;
use compiledb::make::MakeWrapper;
use compiledb::parser::Parser;

fn no_strict_config() -> Config {
    Config { no_strict: true, ..Config::default() }
}

#[test]
fn test_single_token_count_preserved() {
    let config = no_strict_config();
    let mut parser = Parser::new(&config).unwrap();
    let mut env = FixedEnv::empty();

    let line = "cc -c widget.c -o widget.o";
    let result = parser.parse_line(line, &config, &mut env);
    assert_eq!(result.len(), 1);
    assert_eq!(result[0].file, "widget.c");
    assert_eq!(
        result[0].arguments.as_ref().unwrap().len(),
        line.split_whitespace().count()
    );
}

#[test]
fn test_exclusion_drops_record() {
    let config = Config {
        no_strict: true,
        exclude_patterns: vec![String::from("test")],
        ..Config::default()
    };
    let mut parser = Parser::new(&config).unwrap();
    let mut env = FixedEnv::empty();

    let result = parser.parse_line("gcc -c test.c -o test.o", &config, &mut env);
    assert_eq!(result.len(), 0);

    let result = parser.parse_line("gcc -c main.c -o main.o", &config, &mut env);
    assert_eq!(result.len(), 1);
    assert_eq!(result[0].file, "main.c");
}

#[test]
fn test_exclusion_beats_existence() {
    // The exclusion applies even when the file would pass the existence check.
    let config = Config {
        build_dir: String::from("/base"),
        exclude_patterns: vec![String::from("test")],
        ..Config::default()
    };
    let mut parser = Parser::new(&config).unwrap();
    let mut env = FixedEnv {
        outputs: Vec::new(),
        existing: vec![String::from("/base/test.c")],
    };

    let result = parser.parse_line("gcc -c test.c -o test.o", &config, &mut env);
    assert_eq!(result.len(), 0);
}

#[test]
fn test_strict_existence_check() {
    let config = Config { build_dir: String::from("/base"), ..Config::default() };

    let mut parser = Parser::new(&config).unwrap();
    let mut env = FixedEnv {
        outputs: Vec::new(),
        existing: vec![String::from("/base/test.c")],
    };
    let result = parser.parse_line("gcc -c test.c -o test.o", &config, &mut env);
    assert_eq!(result.len(), 1);

    let mut parser = Parser::new(&config).unwrap();
    let mut env = FixedEnv::empty();
    let result = parser.parse_line("gcc -c test.c -o test.o", &config, &mut env);
    assert_eq!(result.len(), 0);
}

#[test]
fn test_strict_selection_keeps_order() {
    // Under the existence check the output is an order-preserving selection
    // of the line's candidates: only the files the probe affirms survive.
    let config = Config { build_dir: String::from("/base"), ..Config::default() };
    let mut parser = Parser::new(&config).unwrap();
    let mut env = FixedEnv {
        outputs: Vec::new(),
        existing: vec![String::from("/base/a.c"), String::from("/base/c.c")],
    };

    let line = "gcc -c a.c -o a.o && gcc -c b.c -o b.o ; gcc -c c.c -o c.o";
    let result = parser.parse_line(line, &config, &mut env);
    assert_eq!(result.len(), 2);
    assert_eq!(result[0].file, "a.c");
    assert_eq!(result[1].file, "c.c");
}

#[test]
fn test_command_style_output() {
    let config = Config { no_strict: true, command_style: true, ..Config::default() };
    let mut parser = Parser::new(&config).unwrap();
    let mut env = FixedEnv::empty();

    let result = parser.parse_line("gcc -c test.c -o test.o", &config, &mut env);
    assert_eq!(result.len(), 1);
    assert_eq!(result[0].command.as_deref(), Some("gcc -c test.c -o test.o"));
    assert!(result[0].arguments.is_none());
    assert!(result[0].output.is_none());
}

#[test]
fn test_macros_appended() {
    let config = Config {
        no_strict: true,
        macros: vec![String::from("-DFOO"), String::from("-DBAR=1")],
        ..Config::default()
    };
    let mut parser = Parser::new(&config).unwrap();
    let mut env = FixedEnv::empty();

    let result = parser.parse_line("gcc -c test.c -o test.o", &config, &mut env);
    assert_eq!(result.len(), 1);
    let args = result[0].arguments.as_ref().unwrap();
    assert_eq!(args.len(), 7);
    assert_eq!(args[5], "-DFOO");
    assert_eq!(args[6], "-DBAR=1");
}

#[test]
fn test_parse_idempotent() {
    let lines = vec![
        String::from("make[1]: Entering directory '/path/to/src'"),
        String::from("gcc -c a.c -o a.o && gcc -c b.c -o b.o"),
        String::from("cd deeper ; gcc -c c.c -o c.o"),
        String::from("make[1]: Leaving directory '/path/to/src'"),
    ];
    let config = no_strict_config();

    let mut parser1 = Parser::new(&config).unwrap();
    let mut env1 = FixedEnv::empty();
    let out1 = parser1.parse_lines(&lines, &config, &mut env1);

    let mut parser2 = Parser::new(&config).unwrap();
    let mut env2 = FixedEnv::empty();
    let out2 = parser2.parse_lines(&lines, &config, &mut env2);

    assert_eq!(out1, out2);
    assert_eq!(out1.len(), 3);
    assert_eq!(out1[0].file, "a.c");
    assert_eq!(out1[1].file, "b.c");
    assert_eq!(out1[2].file, "c.c");
    assert_eq!(out1[0].directory, "/path/to/src");
    assert_eq!(out1[2].directory, "/path/to/src/deeper");
}

#[test]
fn test_backtick_equals_literal() {
    let config = no_strict_config();

    let mut parser1 = Parser::new(&config).unwrap();
    let mut env1 = FixedEnv {
        outputs: vec![(String::from("echo x.c"), String::from("x.c"))],
        existing: Vec::new(),
    };
    let out1 = parser1.parse_line("gcc -c `echo x.c` -o x.o", &config, &mut env1);

    let mut parser2 = Parser::new(&config).unwrap();
    let mut env2 = FixedEnv::empty();
    let out2 = parser2.parse_line("gcc -c x.c -o x.o", &config, &mut env2);

    assert_eq!(out1, out2);
    assert_eq!(out1.len(), 1);
}

#[test]
fn test_failed_substitution_drops_line() {
    let config = no_strict_config();
    let mut parser = Parser::new(&config).unwrap();
    let mut env = FixedEnv::empty();

    let result = parser.parse_line("gcc -c `missing cmd` -o x.o", &config, &mut env);
    assert_eq!(result.len(), 0);
}

#[test]
fn test_absolute_path_under_wd_relativized() {
    let config = Config {
        no_strict: true,
        build_dir: String::from("/a/b"),
        ..Config::default()
    };
    let mut parser = Parser::new(&config).unwrap();
    let mut env = FixedEnv::empty();

    let result = parser.parse_line("gcc -c /a/b/src/x.c -o x.o", &config, &mut env);
    assert_eq!(result.len(), 1);
    assert_eq!(result[0].file, "src/x.c");
}

#[test]
fn test_absolute_path_suffix_aligned() {
    let config = Config {
        no_strict: true,
        build_dir: String::from("/a/b"),
        ..Config::default()
    };
    let mut parser = Parser::new(&config).unwrap();
    let mut env = FixedEnv::empty();

    let result = parser.parse_line("gcc -c /x/a/b/c.c -o c.o", &config, &mut env);
    assert_eq!(result.len(), 1);
    assert_eq!(result[0].file, "a/b/c.c");
    // The -c argument is relativized by the same rule as the file field.
    assert_eq!(result[0].arguments.as_ref().unwrap()[2], "a/b/c.c");
}

#[test]
fn test_c_argument_consistent_with_file() {
    let config = Config {
        no_strict: true,
        build_dir: String::from("/a/b"),
        ..Config::default()
    };
    let mut parser = Parser::new(&config).unwrap();
    let mut env = FixedEnv::empty();

    // Under the working directory: prefix strip.
    let result = parser.parse_line("gcc -c /a/b/src/x.c -o x.o", &config, &mut env);
    let args = result[0].arguments.as_ref().unwrap();
    assert_eq!(args[2], result[0].file);

    // Not under it, but suffix-alignable: the alignment rule.
    let result = parser.parse_line("gcc -c /mnt/a/b/y.c -o y.o", &config, &mut env);
    let args = result[0].arguments.as_ref().unwrap();
    assert_eq!(result[0].file, "a/b/y.c");
    assert_eq!(args[2], result[0].file);

    // Unrelated: both stay absolute.
    let result = parser.parse_line("gcc -c /q/r/z.c -o z.o", &config, &mut env);
    let args = result[0].arguments.as_ref().unwrap();
    assert_eq!(result[0].file, "/q/r/z.c");
    assert_eq!(args[2], result[0].file);
}

#[test]
fn test_absolute_path_unrelated_unchanged() {
    let config = Config {
        no_strict: true,
        build_dir: String::from("/a/b"),
        ..Config::default()
    };
    let mut parser = Parser::new(&config).unwrap();
    let mut env = FixedEnv::empty();

    let result = parser.parse_line("gcc -c /q/r/x.c -o x.o", &config, &mut env);
    assert_eq!(result.len(), 1);
    assert_eq!(result[0].file, "/q/r/x.c");
}

#[test]
fn test_invalid_regex_rejected() {
    let config = Config {
        exclude_patterns: vec![String::from("[")],
        ..Config::default()
    };
    let err = match Parser::new(&config) {
        Ok(_) => panic!("invalid exclusion pattern accepted"),
        Err(e) => e,
    };
    assert!(matches!(err, CompileDbError::InvalidCommand(_)));

    let config = Config { regex_compile: String::from("("), ..Config::default() };
    let err = match Parser::new(&config) {
        Ok(_) => panic!("invalid compile pattern accepted"),
        Err(e) => e,
    };
    assert!(matches!(err, CompileDbError::InvalidCommand(_)));
}

#[test]
fn test_make_dash_c_changes_directory() {
    let config = no_strict_config();
    let mut parser = Parser::new(&config).unwrap();
    let mut env = FixedEnv::empty();

    let result = parser.parse_line("make -C subdir all", &config, &mut env);
    assert_eq!(result.len(), 0);
    assert_eq!(parser.working_dir(), "subdir");

    // The current-directory marker is a no-op.
    let before = parser.working_dir();
    let result = parser.parse_line("make -C . all", &config, &mut env);
    assert_eq!(result.len(), 0);
    assert_eq!(parser.working_dir(), before);
}

#[test]
fn test_checking_banner_discarded() {
    let config = no_strict_config();
    let mut parser = Parser::new(&config).unwrap();
    let mut env = FixedEnv::empty();

    let result = parser.parse_line(
        "checking whether gcc -c conftest.c -o conftest.o works... yes",
        &config,
        &mut env,
    );
    assert_eq!(result.len(), 0);
}

#[test]
fn test_pop_empty_stack_is_noop() {
    let config = no_strict_config();
    let mut parser = Parser::new(&config).unwrap();
    let mut env = FixedEnv::empty();

    // The fresh stack holds one entry; two pops leave it empty, then a third
    // is a tolerated no-op.
    let r1 = parser.parse_line("make[1]: Leaving directory '/x'", &config, &mut env);
    let wd = parser.working_dir();
    let r2 = parser.parse_line("make[1]: Leaving directory '/x'", &config, &mut env);
    assert_eq!(r1.len(), 0);
    assert_eq!(r2.len(), 0);
    assert_eq!(parser.working_dir(), wd);
}

#[test]
fn test_escaped_quotes_cleaned() {
    let config = no_strict_config();
    let mut parser = Parser::new(&config).unwrap();
    let mut env = FixedEnv::empty();

    let result = parser.parse_line(r#"gcc -DNAME=\"x\" -c test.c -o test.o"#, &config, &mut env);
    assert_eq!(result.len(), 1);
    let args = result[0].arguments.as_ref().unwrap();
    assert_eq!(args[1], r#"-DNAME="x""#);
}

#[test]
fn test_make_wrapper_path() {
    let wrapper = MakeWrapper::default();
    assert!(wrapper.make_path().ends_with("make"));
    assert!(!MakeWrapper::new().make_path().is_empty());
}

#[test]
fn test_cd_rewrites_stack_head() {
    // A cd is a flat replace of the stack head together with the working
    // directory, so a later Entering/Leaving pair restores the post-cd
    // directory, not the pre-cd one.
    let config = Config {
        no_strict: true,
        build_dir: String::from("/base"),
        ..Config::default()
    };
    let mut parser = Parser::new(&config).unwrap();
    let mut env = FixedEnv::empty();

    let result = parser.parse_line("cd sub && gcc -c a.c -o a.o", &config, &mut env);
    assert_eq!(result.len(), 1);
    assert_eq!(parser.working_dir(), "/base/sub");

    let r = parser.parse_line("make[1]: Entering directory '/elsewhere'", &config, &mut env);
    assert_eq!(r.len(), 0);
    assert_eq!(parser.working_dir(), "/elsewhere");

    let r = parser.parse_line("make[1]: Leaving directory '/elsewhere'", &config, &mut env);
    assert_eq!(r.len(), 0);
    assert_eq!(parser.working_dir(), "/base/sub");
}

#[test]
fn test_unicode_whitespace_separates_tokens() {
    // U+00A0 is a white-space code point: it separates tokens like a space.
    let config = no_strict_config();
    let mut parser = Parser::new(&config).unwrap();
    let mut env = FixedEnv::empty();

    let result = parser.parse_line("gcc -c\u{00A0}test.c -o test.o", &config, &mut env);
    assert_eq!(result.len(), 1);
    assert_eq!(result[0].file, "test.c");
    assert_eq!(result[0].arguments.as_ref().unwrap().len(), 5);
    assert_eq!(result[0].arguments.as_ref().unwrap()[2], "test.c");
}
