//! Derives a compilation database — records of (directory, file, invocation) —
//! from the textual trace of a recursive `make`-style build run.
//!
//! The core is the line-oriented log parser in [`parser`]: it tracks working
//! directories across nested build invocations, splits composite shell lines,
//! resolves back-tick command substitution, recognizes compiler invocations and
//! normalizes source paths. Path values are modeled as plain strings with
//! Unix `/` separators, and whitespace means the Unicode white-space code
//! points throughout.

use vstd::prelude::*;

pub mod env;
pub mod laws;
pub mod make;
pub mod parser;
pub mod paths;
pub mod pattern;
pub mod text;

verus! {

/// A single record of the compilation database: the working directory in
/// which a source file was compiled, and the invocation that compiled it.
/// Exactly one of `command` (one joined string) and `arguments` (the token
/// list) is present, chosen by the output-style configuration.
#[derive(Debug, Clone, PartialEq)]
pub struct CompileCommand {
    /// The working directory for the compilation.
    pub directory: String,
    /// The main source file to compile, relative to `directory` when possible.
    pub file: String,
    /// The invocation as a single string (when `command_style` is set).
    pub command: Option<String>,
    /// The invocation as a list of arguments (when `command_style` is unset).
    pub arguments: Option<Vec<String>>,
    /// Optional output file; reserved, never filled by the parser.
    pub output: Option<String>,
}

/// The mathematical model of a [`CompileCommand`]: each field as a sequence
/// of characters.
pub ghost struct RecordModel {
    pub directory: Seq<char>,
    pub file: Seq<char>,
    pub command: Option<Seq<char>>,
    pub arguments: Option<Seq<Seq<char>>>,
    pub output: Option<Seq<char>>,
}

impl View for CompileCommand {
    type V = RecordModel;

    open spec fn view(&self) -> RecordModel {
        RecordModel {
            directory: self.directory@,
            file: self.file@,
            command: match self.command {
                Some(s) => Some(s@),
                None => None,
            },
            arguments: match self.arguments {
                Some(v) => Some(text::svs(v@)),
                None => None,
            },
            output: match self.output {
                Some(s) => Some(s@),
                None => None,
            },
        }
    }
}

/// A record is well formed when exactly one of `command` and `arguments`
/// is present.
pub open spec fn record_well_formed(r: RecordModel) -> bool {
    r.command is Some <==> r.arguments is None
}

/// The errors of the library. Error text carried by outside collaborators
/// (the I/O layer, the JSON writer, the build tool) arrives as plain strings.
#[derive(Debug, Clone, PartialEq)]
pub enum CompileDbError {
    /// An input/output failure, rendered as text.
    Io(String),
    /// A JSON serialization failure, rendered as text.
    Json(String),
    /// An invalid command or configuration, such as a regex pattern that
    /// does not compile.
    InvalidCommand(String),
    /// A failure running the build tool.
    MakeError(String),
}

/// Configuration for the compilation database generator, immutable for a
/// parse run. Paths are plain strings with `/` separators.
#[derive(Debug, Clone)]
pub struct Config {
    /// Path to the build log file, if parsing a file rather than a stream.
    pub build_log: Option<String>,
    /// Output file path.
    pub output_file: String,
    /// Initial build directory; when empty, the caller is expected to fill
    /// in its own working directory.
    pub build_dir: String,
    /// File exclusion patterns; a record whose file matches any of them is
    /// dropped.
    pub exclude_patterns: Vec<String>,
    /// Skip the actual build.
    pub no_build: bool,
    /// Verbosity level.
    pub verbose: u8,
    /// Skip the source-file existence check.
    pub no_strict: bool,
    /// Extra macro tokens appended to every extracted invocation.
    pub macros: Vec<String>,
    /// Emit `command` (one string) rather than `arguments` (a token list).
    pub command_style: bool,
    /// Resolve the compiler token to its full executable path.
    pub full_path: bool,
    /// Pattern recognizing a compiler invocation.
    pub regex_compile: String,
    /// Pattern extracting the compiled source file.
    pub regex_file: String,
}

/// The default compiler-recognition pattern: common C/C++ compiler
/// front-ends, optionally version-suffixed, optionally path-prefixed.
pub open spec fn default_regex_compile() -> Seq<char> {
    r"(?:[^/]*/)*(gcc|clang|cc|g\+\+|c\+\+|clang\+\+|cl)(?:-[0-9\.]+)?(?:\s|$)"@
}

/// The default source-file pattern: the argument of `-c`, ending in a known
/// source-file extension, followed by `-o`.
pub open spec fn default_regex_file() -> Seq<char> {
    r"\s-c\s+(\S+\.(c|cpp|cc|cxx|c\+\+|s|m|mm|cu))\s+-o\s"@
}

impl Default for Config {
    /// The default configuration: parse from a stream, write
    /// `compile_commands.json`, no exclusions or macros, strict existence
    /// checking, argument-list output, and the default patterns.
    fn default() -> (r: Config)
        ensures
            r.build_log is None,
            r.output_file@ == "compile_commands.json"@,
            r.build_dir@ == Seq::<char>::empty(),
            r.exclude_patterns@.len() == 0,
            !r.no_build,
            r.verbose == 0,
            !r.no_strict,
            r.macros@.len() == 0,
            !r.command_style,
            !r.full_path,
            r.regex_compile@ == default_regex_compile(),
            r.regex_file@ == default_regex_file(),
    {
        Config {
            build_log: None,
            output_file: "compile_commands.json".to_owned(),
            build_dir: String::new(),
            exclude_patterns: Vec::new(),
            no_build: false,
            verbose: 0,
            no_strict: false,
            macros: Vec::new(),
            command_style: false,
            full_path: false,
            regex_compile: r"(?:[^/]*/)*(gcc|clang|cc|g\+\+|c\+\+|clang\+\+|cl)(?:-[0-9\.]+)?(?:\s|$)".to_owned(),
            regex_file: r"\s-c\s+(\S+\.(c|cpp|cc|cxx|c\+\+|s|m|mm|cu))\s+-o\s".to_owned(),
        }
    }
}

/// Main interface for generating a compilation database; implemented by
/// drivers outside the library.
pub trait CompileDbGenerator {
    /// Generate the compilation database from a build log.
    fn generate(&self, config: &Config) -> Result<Vec<CompileCommand>, CompileDbError>;

    /// Write the compilation database to a file.
    fn write_to_file(&self, commands: &Vec<CompileCommand>, path: &str) -> Result<
        (),
        CompileDbError,
    >;
}

} // verus!
