use compiledb::Config;

#[test]
fn test_config_default() {
    let config = Config::default();
    assert!(!config.no_build);
    assert!(config.verbose == 0);
    assert!(!config.no_strict);
    assert!(!config.command_style);
    assert!(!config.full_path);
}

#[test]
fn test_config_default_patterns() {
    let config = Config::default();
    assert_eq!(config.output_file, "compile_commands.json");
    assert!(config.build_log.is_none());
    assert!(config.exclude_patterns.is_empty());
    assert!(config.macros.is_empty());
    assert!(config.regex_compile.contains("gcc"));
    assert!(config.regex_file.contains("-c"));
}
