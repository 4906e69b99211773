use compiledb::Config;
use compiledb::env::FixedEnv;
use compiledb::parser::Parser;

fn no_strict_config() -> Config {
    Config { no_strict: true, ..Config::default() }
}

#[test]
fn test_parse_gcc_command() {
    let config = no_strict_config();
    let mut parser = Parser::new(&config).unwrap();
    let mut env = FixedEnv::empty();

    let cmd = "gcc -c test.c -o test.o";
    let result = parser.parse_line(cmd, &config, &mut env);

    assert_eq!(result.len(), 1);
    let cmd = &result[0];
    assert_eq!(cmd.file, "test.c");
    assert!(cmd.arguments.is_some());
    assert_eq!(cmd.arguments.as_ref().unwrap().len(), 5);
}

#[test]
fn test_parse_build_log() {
    let lines = vec![
        String::from("gcc -c test1.c -o test1.o"),
        String::from("gcc -c test2.c -o test2.o"),
        String::from("echo 'Not a compile command'"),
    ];

    let config = no_strict_config();
    let mut parser = Parser::new(&config).unwrap();
    let mut env = FixedEnv::empty();

    let commands = parser.parse_lines(&lines, &config, &mut env);
    assert_eq!(commands.len(), 2);
    assert_eq!(commands[0].file, "test1.c");
    assert_eq!(commands[1].file, "test2.c");
}

#[test]
fn test_directory_handling() {
    let config = no_strict_config();
    let mut parser = Parser::new(&config).unwrap();
    let mut env = FixedEnv::empty();
    let initial_dir = parser.working_dir();

    let result = parser.parse_line("make[1]: Entering directory '/path/to/src'", &config, &mut env);
    assert_eq!(result.len(), 0);
    assert_eq!(parser.working_dir(), "/path/to/src");

    let result = parser.parse_line("make[1]: Leaving directory '/path/to/src'", &config, &mut env);
    assert_eq!(result.len(), 0);
    assert_eq!(parser.working_dir(), initial_dir);
}

#[test]
fn test_nested_commands() {
    let config = no_strict_config();
    let mut parser = Parser::new(&config).unwrap();
    let mut env = FixedEnv {
        outputs: vec![(String::from("echo test.c"), String::from("test.c"))],
        existing: Vec::new(),
    };

    let cmd = "gcc -c `echo test.c` -o test.o";
    let result = parser.parse_line(cmd, &config, &mut env);
    assert_eq!(result.len(), 1);
    let cmd = &result[0];
    assert_eq!(cmd.file, "test.c");
}

#[test]
fn test_cd_command() {
    let config = Config { no_strict: true, build_dir: String::from("/base"), ..Config::default() };
    let mut parser = Parser::new(&config).unwrap();
    let mut env = FixedEnv::empty();
    let initial_dir = parser.working_dir();

    let result = parser.parse_line("cd src && gcc -c test.c -o test.o", &config, &mut env);
    assert_eq!(result.len(), 1);
    assert_eq!(parser.working_dir(), format!("{}/src", initial_dir));
    assert_eq!(result[0].directory, "/base/src");
}

#[test]
fn test_parse_complex_build_log() {
    let config = Config {
        no_strict: true,
        build_dir: String::from("/foo/bar/workspace/project/core/engine/drivers/module"),
        ..Config::default()
    };
    let mut parser = Parser::new(&config).unwrap();
    let mut env = FixedEnv::empty();

    let complex_cmd = r#"/usr/bin/printf " [ %-17.17s ]  CC           drivers/module/core/src/xyz/widget.c\n" ""module/core"" && ( set -e ;  /foo/bar/workspace/tools/hosts/platform-x64/compiler/gcc-9.2.0/bin/x86_64-none-linux-gcc  -include /foo/bar/workspace/project/core/engine/sdk/vendor/inc/sysdef.h  -isystem/foo/bar/workspace/tools/hosts/platform-x64/compiler/gcc-9.2.0/lib/gcc/x86_64-none-linux/9.2.0/include -isystem/foo/bar/workspace/tools/hosts/platform-x64/compiler/gcc-9.2.0/lib/gcc/x86_64-none-linux/9.2.0/include-fixed -isystem/foo/bar/workspace/tools/hosts/platform-x64/compiler/gcc-9.2.0/include/c++/9.2.0 -Werror -Wextra -Wshadow -Wcast-align -Wno-unused-parameter -Wno-missing-field-initializers  -fPIC        -g -fno-omit-frame-pointer -fdebug-prefix-map -fstack-protector           -DNDEBUG -DPLATFORM_X64 -DFEATURE_XYZ -DVENDOR_ABC -DCONFIG_TYPE=platform_release_config -D_STRICT_ANSI -D_XOPEN_SOURCE=700 -I_build/platform_x64_release/include/mirror/core/tools/xyz/include -I/foo/bar/workspace/project/core/engine/drivers/common/inc -I/foo/bar/workspace/project/core/engine/drivers/common/inc -isystem/foo/bar/workspace/project/core/engine/drivers/vendor/interface/public/ -fvisibility=hidden -DENABLE_FEATURE_A=1 -DFEATURE_B_SUPPORT=1  -DUSE_NEW_API     -x c         -pedantic -Wno-long-long     -std=c11 -MMD -MP -MT _build/platform_x64_release/widget.o -MF _build/platform_x64_release/widget_dep.mk.tmp -c /foo/bar/workspace/project/core/engine/drivers/module/core/src/xyz/widget.c -o _build/platform_x64_release/widget.o ; /usr/bin/sed -i _build/platform_x64_release/widget_dep.mk.tmp -e ' 1,3s| /foo/bar/workspace/project/core/engine/drivers/module/core/src/xyz/widget.c | |' ; /usr/bin/mv -f _build/platform_x64_release/widget_dep.mk.tmp _build/platform_x64_release/widget_dep.mk )"#;

    let result = parser.parse_line(complex_cmd, &config, &mut env);
    assert_eq!(result.len(), 1, "Parser did not find any commands");

    let cmd = &result[0];
    assert_eq!(
        cmd.directory, "/foo/bar/workspace/project/core/engine/drivers/module",
        "Parser did not find correct directory"
    );
    assert_eq!(
        cmd.file, "core/src/xyz/widget.c",
        "Parser did not find correct file"
    );

    let expected_args = vec![
        "/foo/bar/workspace/tools/hosts/platform-x64/compiler/gcc-9.2.0/bin/x86_64-none-linux-gcc",
        "-include",
        "/foo/bar/workspace/project/core/engine/sdk/vendor/inc/sysdef.h",
        "-isystem/foo/bar/workspace/tools/hosts/platform-x64/compiler/gcc-9.2.0/lib/gcc/x86_64-none-linux/9.2.0/include",
        "-isystem/foo/bar/workspace/tools/hosts/platform-x64/compiler/gcc-9.2.0/lib/gcc/x86_64-none-linux/9.2.0/include-fixed",
        "-isystem/foo/bar/workspace/tools/hosts/platform-x64/compiler/gcc-9.2.0/include/c++/9.2.0",
        "-Werror",
        "-Wextra",
        "-Wshadow",
        "-Wcast-align",
        "-Wno-unused-parameter",
        "-Wno-missing-field-initializers",
        "-fPIC",
        "-g",
        "-fno-omit-frame-pointer",
        "-fdebug-prefix-map",
        "-fstack-protector",
        "-DNDEBUG",
        "-DPLATFORM_X64",
        "-DFEATURE_XYZ",
        "-DVENDOR_ABC",
        "-DCONFIG_TYPE=platform_release_config",
        "-D_STRICT_ANSI",
        "-D_XOPEN_SOURCE=700",
        "-I_build/platform_x64_release/include/mirror/core/tools/xyz/include",
        "-I/foo/bar/workspace/project/core/engine/drivers/common/inc",
        "-I/foo/bar/workspace/project/core/engine/drivers/common/inc",
        "-isystem/foo/bar/workspace/project/core/engine/drivers/vendor/interface/public/",
        "-fvisibility=hidden",
        "-DENABLE_FEATURE_A=1",
        "-DFEATURE_B_SUPPORT=1",
        "-DUSE_NEW_API",
        "-x",
        "c",
        "-pedantic",
        "-Wno-long-long",
        "-std=c11",
        "-MMD",
        "-MP",
        "-MT",
        "_build/platform_x64_release/widget.o",
        "-MF",
        "_build/platform_x64_release/widget_dep.mk.tmp",
        "-c",
        "core/src/xyz/widget.c",
        "-o",
        "_build/platform_x64_release/widget.o",
    ];

    assert_eq!(
        cmd.arguments.as_ref().unwrap(),
        &expected_args,
        "Parser did not find correct arguments"
    );
}
