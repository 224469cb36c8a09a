//! Arguments of the tools the server offers, one struct per tool, with the
//! defaults their optional fields take.

use vstd::prelude::*;
use vstd::string::StringExecFns;

verus! {

/// The default detail level: `full`.
pub fn default_full() -> (s: String)
    ensures
        s@ == "full"@,
{
    String::from_str("full")
}

/// The default column: 1.
pub fn default_one() -> (c: Option<u32>)
    ensures
        c == Some(1u32),
{
    Some(1)
}

/// View a source file with flexible detail levels and automatic type inclusion
pub struct ViewCode {
    /// Path to the source file
    pub file_path: String,
    /// Detail level: "signatures" or "full" (default: "full")
    /// - "signatures": Function/class signatures only (no bodies)
    /// - "full": Complete implementation code
    pub detail: String,
    /// Optional: Focus on ONE symbol, show full code only for it
    /// When set, returns full code for this symbol + signatures for rest
    pub focus_symbol: Option<String>,
    /// Optional: isolate=true returns ONLY the focus symbol rows.
    /// Use when focus_symbol still returns the whole file.
    pub isolate: Option<bool>,
    /// Optional LSP or compact definition location for exact dependency type selection.
    pub definition_location: Option<ReferenceLocation>,
    /// Optional comment handling for returned code fields.
    /// - "none" (default): keep current compact behavior
    /// - "leading": prepend the contiguous leading comment block above returned symbols
    pub comment_mode: Option<String>,
}

/// Generate a high-level code map of a directory with token budget awareness and detail levels
pub struct CodeMap {
    /// Path to file or directory
    pub path: String,
    /// Maximum tokens for output (approximate, default: 2000)
    pub max_tokens: Option<u32>,
    /// Detail level: "minimal", "signatures", or "full" (default: "signatures")
    pub detail: Option<String>,
    /// Glob pattern to filter files (e.g., "*.rs")
    pub pattern: Option<String>,
    /// Also extract type definitions (structs, enums, interfaces, etc.) in the same pass.
    /// More efficient than calling type_map separately. Output includes a "types" key.
    pub with_types: Option<bool>,
    /// When with_types=true, also count usages for each type (default: false for performance).
    pub count_usages: Option<bool>,
    /// Paging offset over files (uses `@.total`/`@.offset`).
    pub offset: Option<u32>,
    /// Paging limit over files.
    pub limit: Option<u32>,
    /// Cost preview only.
    pub estimate: Option<bool>,
}

/// Find all usages of a symbol with context and usage type classification
pub struct FindUsages {
    /// Symbol name to search for
    pub symbol: String,
    /// File or directory path to search in
    pub path: String,
    /// Number of context lines around each usage (default: 3)
    pub context_lines: Option<u32>,
    /// Maximum total context lines across ALL usages (prevents token explosion)
    /// When set, limits the total number of context lines returned
    pub max_context_lines: Option<u32>,
    /// Maximum tokens for output (tiktoken counted). When set, output is
    /// truncated by dropping code/context and/or truncating usages.
    pub max_tokens: Option<u32>,
    /// Paging offset over total matches (default 0).
    pub offset: Option<u32>,
    /// Paging limit over total matches.
    pub limit: Option<u32>,
    /// Cost preview only: return estimated_tokens/rows/scope without payload.
    pub estimate: Option<bool>,
}

/// A 0-based LSP position.
pub struct LspPosition {
    /// 0-based LSP line
    pub line: u32,
    /// 0-based LSP character
    pub character: u32,
}

/// An LSP range; only its start is read.
pub struct LspRange {
    /// LSP range start; end is ignored by this tool
    pub start: LspPosition,
}

/// One reference location: compact 1-based or LSP 0-based.
pub struct ReferenceLocation {
    /// Source file path. Use this or `uri`.
    pub file: Option<String>,
    /// Alternative source file path field accepted by the analysis module.
    pub file_path: Option<String>,
    /// LSP file URI, e.g. file:///repo/src/lib.rs. Use this or `file`.
    pub uri: Option<String>,
    /// 1-based line for compact non-LSP locations.
    pub line: Option<u32>,
    /// 1-based column for compact non-LSP locations.
    pub col: Option<u32>,
    /// 1-based column alias.
    pub column: Option<u32>,
    /// LSP 0-based range. When provided, line/col are ignored.
    pub range: Option<LspRange>,
}

/// Format precise LSP reference locations into the compact find_usages schema
pub struct FormatReferences {
    /// Symbol name these LSP locations resolve to
    pub symbol: String,
    /// LSP or compact reference locations
    pub references: Vec<ReferenceLocation>,
    /// Number of context lines around each reference (default: 3)
    pub context_lines: Option<u32>,
    /// Maximum tokens for output (tiktoken counted)
    pub max_tokens: Option<u32>,
    /// Paging offset
    pub offset: Option<u32>,
    /// Paging limit
    pub limit: Option<u32>,
}

/// One diagnostic: its location, severity, message, source and code.
pub struct DiagnosticItem {
    /// Source file path. Use this or `uri`.
    pub file: Option<String>,
    /// Alternative source file path field accepted by the analysis module.
    pub file_path: Option<String>,
    /// LSP file URI, e.g. file:///repo/src/lib.rs. Use this or `file`.
    pub uri: Option<String>,
    /// 1-based line for compact non-LSP locations.
    pub line: Option<u32>,
    /// 1-based column for compact non-LSP locations.
    pub col: Option<u32>,
    /// 1-based column alias.
    pub column: Option<u32>,
    /// LSP 0-based range. When provided, line/col are ignored.
    pub range: Option<LspRange>,
    /// LSP diagnostic severity: 1 error, 2 warning, 3 info, 4 hint.
    pub severity: Option<u32>,
    /// Diagnostic message.
    pub message: String,
    /// Diagnostic source, such as rustc or typescript.
    pub source: Option<String>,
    /// Diagnostic code as a compact string/number.
    pub code: Option<String>,
}

/// Format LSP diagnostics into compact rows with structural owners
pub struct FormatDiagnostics {
    /// LSP or compact diagnostics
    pub diagnostics: Vec<DiagnosticItem>,
    /// Maximum tokens for output (tiktoken counted)
    pub max_tokens: Option<u32>,
    /// Paging offset
    pub offset: Option<u32>,
    /// Paging limit
    pub limit: Option<u32>,
}

/// Return compact context needed to edit one symbol
pub struct MinimalEditContext {
    /// Path to the source file
    pub file_path: String,
    /// Symbol name to edit
    pub symbol_name: String,
    /// Maximum tokens for output (default: 2000)
    pub max_tokens: Option<u32>,
    /// Optional comment handling for the target code row.
    /// - "none" (default): keep current compact behavior
    /// - "leading": prepend the contiguous leading comment block above the target symbol
    pub comment_mode: Option<String>,
    /// Append conf column to deps/types rows (same-file high, project-local medium)
    pub with_conf: Option<bool>,
}

/// Get symbol information at a specific line with signature and scope chain
pub struct SymbolAtLine {
    /// Path to the source file
    pub file_path: String,
    /// Line number (1-indexed)
    pub line: u32,
    /// Column number (1-indexed, default: 1)
    pub column: Option<u32>,
}

/// Analyze structural changes in a file compared to a git revision
pub struct ParseDiff {
    /// Path to the source file to analyze
    pub file_path: String,
    /// Git revision to compare against (default: "HEAD")
    /// Examples: "HEAD", "HEAD~1", "main", "abc123"
    pub compare_to: Option<String>,
}

/// Find usages that might be affected by changes in a file
pub struct AffectedByDiff {
    /// Path to the changed source file
    pub file_path: String,
    /// Git revision to compare against (default: "HEAD")
    pub compare_to: Option<String>,
    /// Directory to search for affected usages (default: project root)
    pub scope: Option<String>,
    /// Append conf column (high/medium/low) to affected rows
    pub with_conf: Option<bool>,
}

/// Preview downstream impact from a planned signature change
pub struct PreviewImpact {
    /// Path to the source file containing the symbol
    pub file_path: String,
    /// Function or method name to analyze
    pub symbol_name: String,
    /// Planned replacement signature
    pub new_signature: String,
    /// Optional directory to search for affected usages
    pub scope: Option<String>,
}

/// Execute a custom tree-sitter query pattern on a source file with code context
pub struct QueryPattern {
    /// Path to the source file
    pub file_path: String,
    /// Tree-sitter query pattern in S-expression format
    pub query: String,
    /// Number of context lines around each match (default: 2)
    pub context_lines: Option<u32>,
    /// Paging offset
    pub offset: Option<u32>,
    /// Paging limit
    pub limit: Option<u32>,
}

/// Identify likely relevant tests for one symbol
pub struct RelevantTests {
    /// Path to the source file containing the symbol
    pub file_path: String,
    /// Symbol name to analyze
    pub symbol_name: String,
    /// Paging offset
    pub offset: Option<u32>,
    /// Paging limit
    pub limit: Option<u32>,
}

/// Verify that an edit stayed within the intended structural scope
pub struct VerifyEdit {
    /// Path to the changed source file
    pub file_path: String,
    /// Git revision to compare against (default: "HEAD")
    pub compare_to: Option<String>,
    /// Optional symbol expected to be changed
    pub target_symbol: Option<String>,
}

/// Build compact review context for a changed file
pub struct ReviewContext {
    /// Path to the changed source file
    pub file_path: String,
    /// Git revision to compare against (default: "HEAD")
    pub compare_to: Option<String>,
    /// Optional directory to search for affected usages
    pub scope: Option<String>,
    /// Maximum tokens for output (default: 2000)
    pub max_tokens: Option<u32>,
}

/// Find Rust structs that provide context for an Askama template.
///
/// USE WHEN:
/// ✅ Editing Askama HTML templates and need to know available variables
/// ✅ Understanding what data is passed to a template
/// ✅ Debugging template rendering issues
///
/// DON'T USE:
/// ❌ Not using Askama templates
/// ❌ Working with non-template files
///
/// RETURNS:
/// - Struct names associated with the template
/// - All fields with their types (resolved up to 3 levels deep)
/// - Nested struct field expansions
///
/// TOKEN COST: LOW-MEDIUM
/// WORKFLOW: template_context → edit template with known variables
pub struct TemplateContext {
    /// Path to the template file (relative or absolute)
    pub template_path: String,
}

/// Generate a usage-sorted map of all project types. Returns structs, classes, enums, interfaces, traits, protocols, and type aliases prioritized by usage frequency.
pub struct TypeMap {
    /// Directory path to scan for types
    pub path: String,
    /// Maximum tokens in output (counted via tiktoken, default: 2000)
    pub max_tokens: Option<u32>,
    /// Optional glob pattern to filter files (e.g., '*.rs', 'src/**/*.ts')
    pub pattern: Option<String>,
    /// Whether to count usages across the project (default: true).
    /// Set to false for faster results when you only need type locations.
    pub count_usages: Option<bool>,
    /// Paging limit (uses `@.total`/`@.offset`).
    pub limit: Option<u32>,
    /// Paging offset.
    pub offset: Option<u32>,
    /// Cost preview only.
    pub estimate: Option<bool>,
}

/// Text/pattern search with compact schema. Finds string literals, hook keys,
/// error messages, macro names — anything find_usages cannot see.
pub struct SearchText {
    /// File or directory to search
    pub path: String,
    /// Single literal/regex pattern
    pub pattern: Option<String>,
    /// Multiple patterns (lint mode)
    pub patterns: Option<Vec<String>>,
    /// Treat pattern as regex (default false)
    pub regex: Option<bool>,
    /// Case sensitive (default true)
    pub case_sensitive: Option<bool>,
    /// Context lines around match (default 0)
    pub context_lines: Option<u32>,
    /// Paging offset (default 0)
    pub offset: Option<u32>,
    /// Paging limit
    pub limit: Option<u32>,
    /// Max tokens budget
    pub max_tokens: Option<u32>,
    /// Cost preview only
    pub estimate: Option<bool>,
}

/// Find where a symbol gets assigned (writes only).
pub struct FindWrites {
    /// Symbol name
    pub symbol: String,
    /// File or directory to search
    pub path: String,
    /// Context lines (default 3)
    pub context_lines: Option<u32>,
    /// Max tokens budget
    pub max_tokens: Option<u32>,
    /// Paging offset
    pub offset: Option<u32>,
    /// Paging limit
    pub limit: Option<u32>,
}

/// Batch fetch multiple files/symbols/usages in one call.
pub struct BatchView {
    /// Items to fetch
    pub items: Vec<BatchItem>,
    /// Shared max tokens (default 4000)
    pub max_tokens: Option<u32>,
}

/// One read of a batch.
pub struct BatchItem {
    /// File path (view items)
    pub file_path: Option<String>,
    /// Optional focus symbol (view items)
    pub focus_symbol: Option<String>,
    /// Optional detail (view items)
    pub detail: Option<String>,
    /// Item kind: omit for view, "usages" for find_usages
    pub kind: Option<String>,
    /// Symbol name (usages items)
    pub symbol: Option<String>,
    /// Search path (usages items)
    pub path: Option<String>,
}

/// Check transitive include/import reachability.
pub struct DependsOn {
    /// Source file
    pub from: String,
    /// Target file
    pub to: String,
}

/// Splice a replacement body over one symbol's AST span.
pub struct ApplySymbolEdit {
    /// File path
    pub file_path: String,
    /// Symbol to replace
    pub symbol_name: String,
    /// Replacement code block
    pub new_body: String,
    /// Preview without writing (default false)
    pub dry_run: Option<bool>,
}

/// Agent system-prompt fragment: when to reach for which tool.
pub struct PromptSnippet {
}

/// Rename dry-run: preview edits without touching files.
pub struct RenamePreview {
    /// Symbol to rename
    pub symbol: String,
    /// Replacement identifier
    pub new_name: String,
    /// File or directory to search
    pub path: String,
    /// Paging offset
    pub offset: Option<u32>,
    /// Paging limit
    pub limit: Option<u32>,
    /// Max tokens budget
    pub max_tokens: Option<u32>,
}

/// Module map: one row per file with its exported symbols.
pub struct ModuleMap {
    /// File or directory to scan
    pub path: String,
    /// Max tokens budget
    pub max_tokens: Option<u32>,
    /// Paging offset
    pub offset: Option<u32>,
    /// Paging limit
    pub limit: Option<u32>,
}

/// Session bootstrap: types + minimal map + entries + tests in one call.
pub struct SessionBootstrap {
    /// Directory to scan
    pub path: String,
    /// Shared budget (default 3000)
    pub max_tokens: Option<u32>,
}

/// Call path: does A transitively call B (cycles via self-path).
pub struct CallPath {
    /// File containing the source symbol
    pub file_path: String,
    /// Source symbol
    pub symbol: String,
    /// Destination symbol
    pub to: String,
    /// Max depth (default 5, max 5)
    pub depth: Option<u32>,
}

} // verus!
