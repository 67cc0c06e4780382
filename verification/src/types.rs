//! Core data model: languages, modes, configuration, results and errors.

use vstd::prelude::*;
use vstd::string::StringExecFns;
use crate::text::{str_eq, chars_vec, push_char};

verus! {

// ============================================================================
// Language
// ============================================================================

/// Supported programming languages and markup formats.
#[derive(Debug, Clone, Copy, PartialEq, Eq, Hash, Structural)]
pub enum Language {
    TypeScript,
    JavaScript,
    Python,
    Rust,
    Go,
    Java,
    Markdown,
    Json,
    Yaml,
}

/// Which language a lowercase file extension selects.
pub open spec fn lang_of_extension(ext: Seq<char>) -> Option<Language> {
    if ext == "ts"@ || ext == "tsx"@ {
        Some(Language::TypeScript)
    } else if ext == "js"@ || ext == "jsx"@ {
        Some(Language::JavaScript)
    } else if ext == "py"@ || ext == "pyi"@ {
        Some(Language::Python)
    } else if ext == "rs"@ {
        Some(Language::Rust)
    } else if ext == "go"@ {
        Some(Language::Go)
    } else if ext == "java"@ {
        Some(Language::Java)
    } else if ext == "md"@ || ext == "markdown"@ {
        Some(Language::Markdown)
    } else if ext == "json"@ {
        Some(Language::Json)
    } else if ext == "yaml"@ || ext == "yml"@ {
        Some(Language::Yaml)
    } else {
        None
    }
}

/// True when some slash-separated component of `path` is exactly `..`.
pub open spec fn has_parent_component(path: Seq<char>) -> bool {
    exists|i: int|
        0 <= i && i + 2 <= path.len() && #[trigger] path[i] == '.' && path[i + 1] == '.' && (i == 0
            || path[i - 1] == '/') && (i + 2 == path.len() || path[i + 2] == '/')
}

/// The end of the path once trailing slashes are dropped.
pub open spec fn file_part_end(path: Seq<char>) -> int
    decreases path.len(),
{
    if path.len() > 0 && path.last() == '/' {
        file_part_end(path.drop_last())
    } else {
        path.len() as int
    }
}

/// The position just after the last occurrence of `c` strictly before `e`,
/// or 0 when there is none.
pub open spec fn after_last(path: Seq<char>, c: char, e: int) -> int
    decreases e,
{
    if e <= 0 {
        0
    } else if path[e - 1] == c {
        e
    } else {
        after_last(path, c, e - 1)
    }
}

/// The start of the final path component that precedes `file_part_end`.
pub open spec fn file_part_start(path: Seq<char>) -> int {
    after_last(path, '/', file_part_end(path))
}

/// The extension of a path: what follows the last dot of the file name,
/// unless the file name has no dot or starts with its only dot.
pub open spec fn path_extension(path: Seq<char>) -> Option<Seq<char>> {
    let s = file_part_start(path);
    let e = file_part_end(path);
    let d = after_last(path, '.', e);
    if d > s + 1 {
        Some(path.subrange(d, e))
    } else {
        None
    }
}

/// Which language a path selects: none when a component is the
/// parent-directory marker, otherwise decided by the extension.
pub open spec fn lang_of_path(path: Seq<char>) -> Option<Language> {
    if has_parent_component(path) {
        None
    } else {
        match path_extension(path) {
            Some(ext) => lang_of_extension(ext),
            None => None,
        }
    }
}

/// The display name of each language.
pub open spec fn lang_name(lang: Language) -> Seq<char> {
    match lang {
        Language::TypeScript => "TypeScript"@,
        Language::JavaScript => "JavaScript"@,
        Language::Python => "Python"@,
        Language::Rust => "Rust"@,
        Language::Go => "Go"@,
        Language::Java => "Java"@,
        Language::Markdown => "Markdown"@,
        Language::Json => "JSON"@,
        Language::Yaml => "YAML"@,
    }
}

/// True for the languages parsed by a concrete-syntax-tree grammar.
pub open spec fn is_cst_language(lang: Language) -> bool {
    lang != Language::Json && lang != Language::Yaml
}

impl Language {
    /// Detect language from a lowercase file extension.
    pub fn from_extension(ext: &str) -> (r: Option<Language>)
        ensures
            r == lang_of_extension(ext@),
    {
        if str_eq(ext, "ts") || str_eq(ext, "tsx") {
            Some(Language::TypeScript)
        } else if str_eq(ext, "js") || str_eq(ext, "jsx") {
            Some(Language::JavaScript)
        } else if str_eq(ext, "py") || str_eq(ext, "pyi") {
            Some(Language::Python)
        } else if str_eq(ext, "rs") {
            Some(Language::Rust)
        } else if str_eq(ext, "go") {
            Some(Language::Go)
        } else if str_eq(ext, "java") {
            Some(Language::Java)
        } else if str_eq(ext, "md") || str_eq(ext, "markdown") {
            Some(Language::Markdown)
        } else if str_eq(ext, "json") {
            Some(Language::Json)
        } else if str_eq(ext, "yaml") || str_eq(ext, "yml") {
            Some(Language::Yaml)
        } else {
            None
        }
    }

    /// Detect language from a file path.
    ///
    /// Rejects any path with a parent-directory component, so that callers
    /// (the cache, multi-file drivers) never act on a traversing path.
    pub fn from_path(path: &str) -> (r: Option<Language>)
        ensures
            r == lang_of_path(path@),
            has_parent_component(path@) ==> r is None,
    {
        let v = chars_vec(path);
        let n = v.len();

        // Reject `..` components.
        let mut i: usize = 0;
        while i < n
            invariant
                n == v@.len(),
                v@ == path@,
                0 <= i <= n,
                forall|p: int|
                    0 <= p && p + 2 <= n && p < i ==> !(#[trigger] v@[p] == '.' && v@[p + 1] == '.'
                        && (p == 0 || v@[p - 1] == '/') && (p + 2 == n || v@[p + 2] == '/')),
            decreases n - i,
        {
            if i + 1 < n && v[i] == '.' && v[i + 1] == '.' && (i == 0 || v[i - 1] == '/') && (i + 2
                == n || v[i + 2] == '/') {
                proof {
                    assert(has_parent_component(path@));
                }
                return None;
            }
            i += 1;
        }
        proof {
            assert(!has_parent_component(path@));
        }

        // Strip trailing slashes.
        proof {
            assert(path@.subrange(0, n as int) =~= path@);
        }
        let mut e: usize = n;
        while e > 0 && v[e - 1] == '/'
            invariant
                n == v@.len(),
                v@ == path@,
                0 <= e <= n,
                file_part_end(path@) == file_part_end(path@.subrange(0, e as int)),
            decreases e,
        {
            proof {
                assert(path@.subrange(0, e as int).last() == path@[e - 1]);
                assert(path@.subrange(0, e as int).drop_last() =~= path@.subrange(0, e - 1));
            }
            e -= 1;
        }
        proof {
            assert(path@.subrange(0, e as int).len() == e);
            if e > 0 {
                assert(path@.subrange(0, e as int).last() == path@[e - 1]);
            }
            assert(file_part_end(path@) == e);
        }

        // Find the start of the file name: just after the last slash.
        let mut j: usize = e;
        while j > 0 && v[j - 1] != '/'
            invariant
                n == v@.len(),
                v@ == path@,
                0 <= j <= e <= n,
                e == file_part_end(path@),
                after_last(path@, '/', e as int) == after_last(path@, '/', j as int),
            decreases j,
        {
            j -= 1;
        }
        let s = j;
        proof {
            assert(s == file_part_start(path@));
        }

        // Find the position just after the last dot.
        let mut k: usize = e;
        while k > 0 && v[k - 1] != '.'
            invariant
                n == v@.len(),
                v@ == path@,
                0 <= k <= e <= n,
                e == file_part_end(path@),
                after_last(path@, '.', e as int) == after_last(path@, '.', k as int),
            decreases k,
        {
            k -= 1;
        }
        let d = k;
        proof {
            assert(d == after_last(path@, '.', e as int));
        }

        if d <= s + 1 {
            return None;
        }

        // Build the extension string and defer to `from_extension`.
        let mut ext = String::new();
        let mut p: usize = d;
        while p < e
            invariant
                n == v@.len(),
                v@ == path@,
                0 <= d <= p <= e <= n,
                ext@ == path@.subrange(d as int, p as int),
            decreases e - p,
        {
            push_char(&mut ext, v[p]);
            proof {
                assert(path@.subrange(d as int, p as int) + seq![path@[p as int]] =~= path@
                    .subrange(d as int, p + 1));
            }
            p += 1;
        }
        Language::from_extension(ext.as_str())
    }

    /// The display name of the language.
    pub fn name(self) -> (r: &'static str)
        ensures
            r@ == lang_name(self),
    {
        match self {
            Language::TypeScript => "TypeScript",
            Language::JavaScript => "JavaScript",
            Language::Python => "Python",
            Language::Rust => "Rust",
            Language::Go => "Go",
            Language::Java => "Java",
            Language::Markdown => "Markdown",
            Language::Json => "JSON",
            Language::Yaml => "YAML",
        }
    }

    /// True when the language is parsed by a CST grammar rather than a
    /// structured-data parser.
    pub fn uses_cst(self) -> (r: bool)
        ensures
            r == is_cst_language(self),
    {
        match self {
            Language::Json => false,
            Language::Yaml => false,
            _ => true,
        }
    }
}

// ============================================================================
// Mode
// ============================================================================

/// Output transformation mode.
#[derive(Debug, Clone, Copy, PartialEq, Eq, Hash, Structural)]
pub enum Mode {
    /// Keep structure only: every callable body becomes a placeholder.
    Structure,
    /// Keep only callable signatures, one per line.
    Signatures,
    /// Keep only type definitions.
    Types,
    /// No transformation: the source is returned unchanged.
    Full,
}

/// A character folded to lowercase when it is an ASCII capital letter.
pub open spec fn ascii_lower_u32(c: char) -> int {
    if 65 <= c as u32 && c as u32 <= 90 {
        c as u32 + 32
    } else {
        c as u32 as int
    }
}

/// Character sequences equal up to ASCII case.
pub open spec fn eq_ignore_ascii_case(a: Seq<char>, b: Seq<char>) -> bool {
    a.len() == b.len() && forall|i: int|
        0 <= i < a.len() ==> ascii_lower_u32(a[i]) == ascii_lower_u32(b[i])
}

/// Which mode a name selects, up to ASCII case.
pub open spec fn mode_of_name(s: Seq<char>) -> Option<Mode> {
    if eq_ignore_ascii_case(s, "structure"@) {
        Some(Mode::Structure)
    } else if eq_ignore_ascii_case(s, "signatures"@) {
        Some(Mode::Signatures)
    } else if eq_ignore_ascii_case(s, "types"@) {
        Some(Mode::Types)
    } else if eq_ignore_ascii_case(s, "full"@) {
        Some(Mode::Full)
    } else {
        None
    }
}

/// The display name of each mode.
pub open spec fn mode_name(m: Mode) -> Seq<char> {
    match m {
        Mode::Structure => "structure"@,
        Mode::Signatures => "signatures"@,
        Mode::Types => "types"@,
        Mode::Full => "full"@,
    }
}

/// ASCII-case-insensitive comparison of two strings.
fn str_eq_ignore_ascii_case(a: &str, b: &str) -> (r: bool)
    ensures
        r == eq_ignore_ascii_case(a@, b@),
{
    let av = chars_vec(a);
    let bv = chars_vec(b);
    if av.len() != bv.len() {
        return false;
    }
    let n = av.len();
    let mut i: usize = 0;
    while i < n
        invariant
            n == av@.len() == bv@.len(),
            av@ == a@,
            bv@ == b@,
            0 <= i <= n,
            forall|k: int| 0 <= k < i ==> ascii_lower_u32(a@[k]) == ascii_lower_u32(b@[k]),
        decreases n - i,
    {
        let ca = av[i] as u32;
        let cb = bv[i] as u32;
        let la: u32 = if 65 <= ca && ca <= 90 {
            ca + 32
        } else {
            ca
        };
        let lb: u32 = if 65 <= cb && cb <= 90 {
            cb + 32
        } else {
            cb
        };
        if la != lb {
            return false;
        }
        i += 1;
    }
    true
}

impl Mode {
    /// Parse a mode name, ignoring ASCII case.
    pub fn parse(s: &str) -> (r: Option<Mode>)
        ensures
            r == mode_of_name(s@),
    {
        if str_eq_ignore_ascii_case(s, "structure") {
            Some(Mode::Structure)
        } else if str_eq_ignore_ascii_case(s, "signatures") {
            Some(Mode::Signatures)
        } else if str_eq_ignore_ascii_case(s, "types") {
            Some(Mode::Types)
        } else if str_eq_ignore_ascii_case(s, "full") {
            Some(Mode::Full)
        } else {
            None
        }
    }

    /// The display name of the mode.
    pub fn name(self) -> (r: &'static str)
        ensures
            r@ == mode_name(self),
    {
        match self {
            Mode::Structure => "structure",
            Mode::Signatures => "signatures",
            Mode::Types => "types",
            Mode::Full => "full",
        }
    }
}

// ============================================================================
// Configuration and results
// ============================================================================

/// Configuration for a transformation.
#[derive(Debug, Clone)]
pub struct TransformConfig {
    /// Transformation mode.
    pub mode: Mode,
    /// Whether structural comments are preserved. The reference transforms
    /// keep every non-body token verbatim, so they are comment-neutral and
    /// honor either setting.
    pub preserve_comments: bool,
    /// Reserved for callers that layer their own caching over the engine.
    pub cache_enabled: bool,
}

impl Default for TransformConfig {
    fn default() -> (r: Self)
        ensures
            r.mode == Mode::Structure,
            r.preserve_comments == true,
            r.cache_enabled == false,
    {
        TransformConfig { mode: Mode::Structure, preserve_comments: true, cache_enabled: false }
    }
}

impl TransformConfig {
    /// A configuration with the given mode and default flags.
    pub fn with_mode(mode: Mode) -> (r: Self)
        ensures
            r.mode == mode,
            r.preserve_comments == true,
            r.cache_enabled == false,
    {
        TransformConfig { mode, preserve_comments: true, cache_enabled: false }
    }

    /// Builder: set comment preservation.
    pub fn preserve_comments(self, preserve: bool) -> (r: Self)
        ensures
            r.mode == self.mode,
            r.preserve_comments == preserve,
            r.cache_enabled == self.cache_enabled,
    {
        TransformConfig { preserve_comments: preserve, ..self }
    }

    /// Builder: set the caching flag.
    pub fn with_cache(self, enabled: bool) -> (r: Self)
        ensures
            r.mode == self.mode,
            r.preserve_comments == self.preserve_comments,
            r.cache_enabled == enabled,
    {
        TransformConfig { cache_enabled: enabled, ..self }
    }
}

/// Result of a transformation, with optional metadata.
#[derive(Debug, Clone)]
pub struct TransformResult {
    /// Transformed source code.
    pub content: String,
    /// Token count of the input, when a tokenizer was consulted.
    pub original_tokens: Option<usize>,
    /// Token count of the output, when a tokenizer was consulted.
    pub transformed_tokens: Option<usize>,
    /// Time taken to transform, in milliseconds.
    pub duration_ms: Option<u64>,
}

impl TransformResult {
    /// A result carrying only content.
    pub fn new(content: String) -> (r: Self)
        ensures
            r.content == content,
            r.original_tokens is None,
            r.transformed_tokens is None,
            r.duration_ms is None,
    {
        TransformResult { content, original_tokens: None, transformed_tokens: None, duration_ms: None }
    }
}

// ============================================================================
// Errors
// ============================================================================

/// Error raised by the engine or reserved for its collaborators.
#[derive(Debug)]
pub enum SkimError {
    /// The path does not resolve to a supported language.
    UnsupportedLanguage(String),
    /// Parsing failed, a safety bound was exceeded, or a byte range was
    /// invalid.
    ParseError(String),
    /// A CST grammar could not be loaded.
    TreeSitterError(String),
    /// Reserved for I/O performed by callers; never raised by the engine.
    Io(String),
    /// A parser was requested for a language whose backend is not a CST.
    ConfigError(String),
    /// Reserved for the cache collaborator; never raised by the engine.
    CacheError(String),
}

/// The rendered message of an error.
pub open spec fn error_message(e: SkimError) -> Seq<char> {
    match e {
        SkimError::UnsupportedLanguage(p) => "Unsupported language for file: "@ + p@,
        SkimError::ParseError(m) => "Failed to parse source code: "@ + m@,
        SkimError::TreeSitterError(m) => "Tree-sitter language error: "@ + m@,
        SkimError::Io(m) => "IO error: "@ + m@,
        SkimError::ConfigError(m) => "Invalid configuration: "@ + m@,
        SkimError::CacheError(m) => "Cache error: "@ + m@,
    }
}

impl SkimError {
    /// Render the error as the message a diagnostic stream would show.
    pub fn message(&self) -> (r: String)
        ensures
            r@ == error_message(*self),
    {
        let mut out = String::new();
        match self {
            SkimError::UnsupportedLanguage(p) => {
                out.append("Unsupported language for file: ");
                out.append(p.as_str());
            },
            SkimError::ParseError(m) => {
                out.append("Failed to parse source code: ");
                out.append(m.as_str());
            },
            SkimError::TreeSitterError(m) => {
                out.append("Tree-sitter language error: ");
                out.append(m.as_str());
            },
            SkimError::Io(m) => {
                out.append("IO error: ");
                out.append(m.as_str());
            },
            SkimError::ConfigError(m) => {
                out.append("Invalid configuration: ");
                out.append(m.as_str());
            },
            SkimError::CacheError(m) => {
                out.append("Cache error: ");
                out.append(m.as_str());
            },
        }
        out
    }
}

/// Result type used throughout the library.
pub type SkimResult<T> = Result<T, SkimError>;

} // verus!
