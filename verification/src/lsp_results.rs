//! What the language server tool reports: server answers (0-based
//! positions) turned into 1-based results, diagnostics summarised, symbols
//! filtered, hover contents rendered, and the message for an empty answer.
//!
//! File names and symbol kinds reach this module as the texts the caller
//! rendered for them.
use vstd::prelude::*;

use crate::misc_tools::LspOperation;
use crate::text::{append_chars, append_str, chars_of, decimal, decimal_vec, join, join_vec, string_of, views};

verus! {

/// Severity code of an error diagnostic.
pub const SEVERITY_ERROR: i32 = 1;

/// Severity code of a warning.
pub const SEVERITY_WARNING: i32 = 2;

/// Severity code of an information.
pub const SEVERITY_INFORMATION: i32 = 3;

/// Severity code of a hint.
pub const SEVERITY_HINT: i32 = 4;

/// Most error diagnostics listed for one file.
pub const MAX_DIAGNOSTICS_PER_FILE: usize = 20;

/// Most workspace symbols reported.
pub const WORKSPACE_SYMBOL_LIMIT: usize = 10;

/// A 0-based position in a document.
#[derive(Debug, Clone, Copy)]
pub struct Position {
    pub line: u32,
    pub character: u32,
}

/// A diagnostic of the server.
#[derive(Debug)]
pub struct Diagnostic {
    /// The severity code, when given.
    pub severity: Option<i32>,
    pub start: Position,
    pub message: String,
    pub source: Option<String>,
}

/// A position below the largest one, so that it can be made 1-based.
pub open spec fn liftable(p: Position) -> bool {
    p.line < u32::MAX && p.character < u32::MAX
}

/// The label a diagnostic is summarised with.
pub open spec fn severity_label(severity: Option<i32>) -> Seq<char> {
    match severity {
        Some(1) => "ERROR"@,
        Some(2) => "WARNING"@,
        Some(3) => "INFO"@,
        Some(4) => "HINT"@,
        _ => "DIAGNOSTIC"@,
    }
}

/// `SEVERITY [line:col] message`, 1-based.
pub open spec fn diagnostic_line(d: Diagnostic) -> Seq<char> {
    severity_label(d.severity) + " ["@ + decimal((d.start.line + 1) as nat) + ":"@ + decimal(
        (d.start.character + 1) as nat,
    ) + "] "@ + d.message@
}

/// Formats one diagnostic as `SEVERITY [line:col] message`, 1-based.
pub fn format_diagnostic(d: &Diagnostic) -> (r: String)
    requires
        liftable(d.start),
    ensures
        r@ == diagnostic_line(*d),
{
    let label = match d.severity {
        Some(1) => "ERROR",
        Some(2) => "WARNING",
        Some(3) => "INFO",
        Some(4) => "HINT",
        _ => "DIAGNOSTIC",
    };
    let mut out = chars_of(label);
    append_str(&mut out, " [");
    append_chars(&mut out, &decimal_vec((d.start.line + 1) as u64));
    append_str(&mut out, ":");
    append_chars(&mut out, &decimal_vec((d.start.character + 1) as u64));
    append_str(&mut out, "] ");
    append_str(&mut out, d.message.as_str());
    string_of(&out)
}

/// The error diagnostics, in order.
pub open spec fn errors_of(ds: Seq<Diagnostic>) -> Seq<Diagnostic> {
    ds.filter(|d: Diagnostic| d.severity == Some(SEVERITY_ERROR))
}

/// The report appended to a tool's output after a file changed: nothing
/// without errors; else the number of errors, the first twenty, and how
/// many more there are.
pub open spec fn diagnostics_report_text(ds: Seq<Diagnostic>) -> Seq<char> {
    let errs = errors_of(ds);
    let shown = if errs.len() <= MAX_DIAGNOSTICS_PER_FILE {
        errs
    } else {
        errs.take(MAX_DIAGNOSTICS_PER_FILE as int)
    };
    if errs.len() == 0 {
        seq![]
    } else {
        "\n\nLSP Diagnostics ("@ + decimal(errs.len()) + " error(s)):\n"@ + join(
            shown.map_values(|d: Diagnostic| "  "@ + diagnostic_line(d) + "\n"@),
            seq![],
        ) + if errs.len() > MAX_DIAGNOSTICS_PER_FILE {
            "  ... and "@ + decimal((errs.len() - MAX_DIAGNOSTICS_PER_FILE) as nat) + " more error(s)\n"@
        } else {
            seq![]
        }
    }
}

/// Summarises the error diagnostics of a file.
pub fn diagnostics_report(ds: &[Diagnostic]) -> (r: String)
    requires
        forall|i: int| 0 <= i < ds@.len() ==> liftable(#[trigger] ds@[i].start),
    ensures
        r@ == diagnostics_report_text(ds@),
{
    let ghost errs = errors_of(ds@);
    let mut lines: Vec<Vec<char>> = Vec::new();
    let mut total: usize = 0;
    let mut i: usize = 0;
    proof {
        reveal(Seq::filter);
        assert(ds@.take(0).filter(|d: Diagnostic| d.severity == Some(SEVERITY_ERROR)) =~= Seq::<Diagnostic>::empty());
    }
    while i < ds.len()
        invariant
            i <= ds.len(),
            forall|j: int| 0 <= j < ds@.len() ==> liftable(#[trigger] ds@[j].start),
            total as nat == errors_of(ds@.take(i as int)).len(),
            total <= i,
            views(lines@) == (if total <= MAX_DIAGNOSTICS_PER_FILE {
                errors_of(ds@.take(i as int))
            } else {
                errors_of(ds@.take(i as int)).take(MAX_DIAGNOSTICS_PER_FILE as int)
            }).map_values(|d: Diagnostic| "  "@ + diagnostic_line(d) + "\n"@),
        decreases ds.len() - i,
    {
        proof {
            reveal(Seq::filter);
            assert(ds@.take(i + 1).drop_last() =~= ds@.take(i as int));
            assert(ds@.take(i + 1).last() == ds@[i as int]);
        }
        let d = &ds[i];
        if d.severity == Some(SEVERITY_ERROR) {
            let ghost prev = errors_of(ds@.take(i as int));
            assert(errors_of(ds@.take(i + 1)) =~= prev.push(*d));
            if total < MAX_DIAGNOSTICS_PER_FILE {
                let mut l = chars_of("  ");
                let f = format_diagnostic(d);
                append_str(&mut l, f.as_str());
                append_str(&mut l, "\n");
                let ghost before = views(lines@);
                lines.push(l);
                proof {
                    assert(views(lines@) =~= before.push("  "@ + diagnostic_line(*d) + "\n"@));
                    if total + 1 <= MAX_DIAGNOSTICS_PER_FILE {
                        assert(prev.push(*d).map_values(|d: Diagnostic| "  "@ + diagnostic_line(d) + "\n"@)
                            =~= prev.map_values(|d: Diagnostic| "  "@ + diagnostic_line(d) + "\n"@).push(
                            "  "@ + diagnostic_line(*d) + "\n"@,
                        ));
                    }
                }
            } else {
                proof {
                    assert(prev.push(*d).take(MAX_DIAGNOSTICS_PER_FILE as int) =~= (if total
                        <= MAX_DIAGNOSTICS_PER_FILE {
                        prev
                    } else {
                        prev.take(MAX_DIAGNOSTICS_PER_FILE as int)
                    }));
                }
            }
            total = total + 1;
        } else {
            assert(errors_of(ds@.take(i + 1)) =~= errors_of(ds@.take(i as int)));
        }
        i = i + 1;
    }
    assert(ds@.take(i as int) =~= ds@);
    if total == 0 {
        return String::new();
    }
    let mut out = chars_of("\n\nLSP Diagnostics (");
    append_chars(&mut out, &decimal_vec(total as u64));
    append_str(&mut out, " error(s)):\n");
    let empty: Vec<char> = Vec::new();
    let body = join_vec(&lines, &empty);
    append_chars(&mut out, &body);
    if total > MAX_DIAGNOSTICS_PER_FILE {
        append_str(&mut out, "  ... and ");
        append_chars(&mut out, &decimal_vec((total - MAX_DIAGNOSTICS_PER_FILE) as u64));
        append_str(&mut out, " more error(s)\n");
    }
    string_of(&out)
}

/// A location in a reply of the language server tool, 1-based.
#[derive(Debug)]
pub struct LocationResult {
    pub file: String,
    pub line: u32,
    pub character: u32,
}

/// A location of the server's answer, with the file name the caller
/// rendered for its URI, made 1-based.
pub fn location_result(file: String, start: Position) -> (r: LocationResult)
    requires
        liftable(start),
    ensures
        r.file@ == file@,
        r.line == start.line + 1,
        r.character == start.character + 1,
{
    LocationResult { file, line: start.line + 1, character: start.character + 1 }
}

/// A call hierarchy item in a reply, 1-based.
#[derive(Debug)]
pub struct CallResult {
    pub name: String,
    pub file: String,
    pub line: u32,
    pub character: u32,
}

/// A call hierarchy item with its name, rendered file and selection start,
/// made 1-based.
pub fn call_result(name: String, file: String, selection_start: Position) -> (r: CallResult)
    requires
        liftable(selection_start),
    ensures
        r.name@ == name@,
        r.file@ == file@,
        r.line == selection_start.line + 1,
        r.character == selection_start.character + 1,
{
    CallResult { name, file, line: selection_start.line + 1, character: selection_start.character + 1 }
}

/// A diagnostic in a reply of the language server tool.
#[derive(Debug)]
pub struct DiagnosticResult {
    pub severity: String,
    pub line: u32,
    pub character: u32,
    pub message: String,
    pub source: Option<String>,
}

/// The lowercase severity name of a diagnostic in a reply.
pub open spec fn severity_name(severity: Option<i32>) -> Seq<char> {
    match severity {
        Some(1) => "error"@,
        Some(2) => "warning"@,
        Some(3) => "info"@,
        Some(4) => "hint"@,
        _ => "unknown"@,
    }
}

/// A diagnostic as the tool reports it: severity name, 1-based position,
/// message and source.
pub fn diagnostic_result(d: &Diagnostic) -> (r: DiagnosticResult)
    requires
        liftable(d.start),
    ensures
        r.severity@ == severity_name(d.severity),
        r.line == d.start.line + 1,
        r.character == d.start.character + 1,
        r.message@ == d.message@,
        r.source == d.source,
{
    let severity = match d.severity {
        Some(1) => "error",
        Some(2) => "warning",
        Some(3) => "info",
        Some(4) => "hint",
        _ => "unknown",
    };
    let source = match &d.source {
        Some(s) => Some(s.clone()),
        None => None,
    };
    DiagnosticResult {
        severity: severity.to_owned(),
        line: d.start.line + 1,
        character: d.start.character + 1,
        message: d.message.clone(),
        source,
    }
}

/// A symbol of a document, as the server reports it, with the kind's name
/// as the caller rendered it.
#[derive(Debug)]
pub struct DocumentSymbol {
    pub name: String,
    pub kind: String,
    pub start: Position,
    pub end: Position,
    pub children: Vec<DocumentSymbol>,
}

/// The range of a symbol in a reply, 1-based.
#[derive(Debug, Clone, Copy)]
pub struct RangeResult {
    pub start_line: u32,
    pub start_character: u32,
    pub end_line: u32,
    pub end_character: u32,
}

/// A symbol in a reply, with its children.
#[derive(Debug)]
pub struct SymbolResult {
    pub name: String,
    pub kind: String,
    pub range: RangeResult,
    pub children: Vec<SymbolResult>,
}

/// All positions of a symbol tree can be made 1-based.
pub open spec fn symbol_liftable(s: DocumentSymbol) -> bool
    decreases s,
{
    liftable(s.start) && liftable(s.end) && all_liftable(s.children@)
}

/// All positions of these symbol trees can be made 1-based.
pub open spec fn all_liftable(cs: Seq<DocumentSymbol>) -> bool
    decreases cs,
{
    cs.len() == 0 || (symbol_liftable(cs.last()) && all_liftable(cs.drop_last()))
}

/// A reply symbol is the document symbol with 1-based positions, and so
/// are its children, in order.
pub open spec fn converted(s: DocumentSymbol, r: SymbolResult) -> bool
    decreases s,
{
    &&& r.name@ == s.name@
    &&& r.kind@ == s.kind@
    &&& r.range.start_line == s.start.line + 1
    &&& r.range.start_character == s.start.character + 1
    &&& r.range.end_line == s.end.line + 1
    &&& r.range.end_character == s.end.character + 1
    &&& all_converted(s.children@, r.children@)
}

/// Each reply symbol is the corresponding document symbol converted.
pub open spec fn all_converted(cs: Seq<DocumentSymbol>, rs: Seq<SymbolResult>) -> bool
    decreases cs,
{
    &&& cs.len() == rs.len()
    &&& (cs.len() == 0 || (converted(cs.last(), rs.last()) && all_converted(cs.drop_last(), rs.drop_last())))
}

proof fn lemma_all_liftable_at(cs: Seq<DocumentSymbol>, i: int)
    requires
        all_liftable(cs),
        0 <= i < cs.len(),
    ensures
        symbol_liftable(cs[i]),
    decreases cs.len(),
{
    if i < cs.len() - 1 {
        lemma_all_liftable_at(cs.drop_last(), i);
        assert(cs.drop_last()[i] == cs[i]);
    }
}

proof fn lemma_child_liftable(s: DocumentSymbol, i: int)
    requires
        symbol_liftable(s),
        0 <= i < s.children@.len(),
    ensures
        symbol_liftable(s.children@[i]),
{
    lemma_all_liftable_at(s.children@, i);
}

/// Converts a symbol tree to its reply form, 1-based.
pub fn convert_document_symbol(sym: &DocumentSymbol) -> (r: SymbolResult)
    requires
        symbol_liftable(*sym),
    ensures
        converted(*sym, r),
    decreases sym,
{
    let mut children: Vec<SymbolResult> = Vec::new();
    let mut i: usize = 0;
    while i < sym.children.len()
        invariant
            i <= sym.children.len(),
            symbol_liftable(*sym),
            all_converted(sym.children@.take(i as int), children@),
        decreases sym.children.len() - i,
    {
        proof {
            lemma_child_liftable(*sym, i as int);
        }
        let c = convert_document_symbol(&sym.children[i]);
        let ghost before = children@;
        children.push(c);
        proof {
            assert(sym.children@.take(i + 1).drop_last() =~= sym.children@.take(i as int));
            assert(children@.drop_last() =~= before);
        }
        i = i + 1;
    }
    assert(liftable(sym.start) && liftable(sym.end));
    assert(sym.children@.take(i as int) =~= sym.children@);
    let r = SymbolResult {
        name: sym.name.clone(),
        kind: sym.kind.clone(),
        range: RangeResult {
            start_line: sym.start.line + 1,
            start_character: sym.start.character + 1,
            end_line: sym.end.line + 1,
            end_character: sym.end.character + 1,
        },
        children,
    };
    assert(converted(*sym, r));
    r
}

/// Symbol kind codes reported by a workspace symbol search: class,
/// function, method, interface, variable, constant, struct and enum.
pub open spec fn relevant_kind(kind: u32) -> bool {
    kind == 5 || kind == 12 || kind == 6 || kind == 11 || kind == 13 || kind == 14 || kind == 23 || kind == 10
}

/// Which kind codes are reported.
pub fn is_relevant_kind(kind: u32) -> (r: bool)
    ensures
        r == relevant_kind(kind),
{
    kind == 5 || kind == 12 || kind == 6 || kind == 11 || kind == 13 || kind == 14 || kind == 23 || kind == 10
}

/// The positions of the reported symbols among the kinds of a workspace
/// symbol search: the first ten of relevant kind, in order.
pub open spec fn relevant_positions(kinds: Seq<u32>) -> Seq<int>
    decreases kinds.len(),
{
    if kinds.len() == 0 {
        seq![]
    } else {
        let prev = relevant_positions(kinds.drop_last());
        if relevant_kind(kinds.last()) && prev.len() < WORKSPACE_SYMBOL_LIMIT {
            prev.push(kinds.len() - 1)
        } else {
            prev
        }
    }
}

/// Chooses the workspace symbols to report: the first ten of relevant kind.
pub fn select_workspace_symbols(kinds: &[u32]) -> (r: Vec<usize>)
    ensures
        r@.map_values(|i: usize| i as int) == relevant_positions(kinds@),
{
    let mut out: Vec<usize> = Vec::new();
    let mut i: usize = 0;
    assert(kinds@.take(0) =~= Seq::<u32>::empty());
    while i < kinds.len()
        invariant
            i <= kinds.len(),
            out@.map_values(|i: usize| i as int) == relevant_positions(kinds@.take(i as int)),
            out@.len() <= WORKSPACE_SYMBOL_LIMIT,
        decreases kinds.len() - i,
    {
        proof {
            assert(kinds@.take(i + 1).drop_last() =~= kinds@.take(i as int));
            assert(kinds@.take(i + 1).last() == kinds@[i as int]);
        }
        if is_relevant_kind(kinds[i]) && out.len() < WORKSPACE_SYMBOL_LIMIT {
            let ghost before = out@.map_values(|i: usize| i as int);
            out.push(i);
            assert(out@.map_values(|i: usize| i as int) =~= before.push(i as int));
        }
        i = i + 1;
    }
    assert(kinds@.take(i as int) =~= kinds@);
    out
}

/// A piece of hover text: plain, or code in a language.
#[derive(Debug)]
pub enum MarkedString {
    Plain(String),
    LanguageString { language: String, value: String },
}

/// The contents of a hover answer.
#[derive(Debug)]
pub enum HoverContents {
    Scalar(MarkedString),
    Array(Vec<MarkedString>),
    Markup(String),
}

/// A piece of hover text as the tool shows it: code is fenced with its
/// language.
pub open spec fn marked_text(m: MarkedString) -> Seq<char> {
    match m {
        MarkedString::Plain(s) => s@,
        MarkedString::LanguageString { language, value } => "```"@ + language@ + "\n"@ + value@ + "\n```"@,
    }
}

/// Renders a piece of hover text.
pub fn markup_content_to_string(m: &MarkedString) -> (r: String)
    ensures
        r@ == marked_text(*m),
{
    match m {
        MarkedString::Plain(s) => s.clone(),
        MarkedString::LanguageString { language, value } => {
            let mut out = chars_of("```");
            append_str(&mut out, language.as_str());
            append_str(&mut out, "\n");
            append_str(&mut out, value.as_str());
            append_str(&mut out, "\n```");
            string_of(&out)
        },
    }
}

/// The text of a hover answer: pieces are separated by blank lines.
pub open spec fn hover_text_spec(h: HoverContents) -> Seq<char> {
    match h {
        HoverContents::Scalar(m) => marked_text(m),
        HoverContents::Array(a) => join(a@.map_values(|m: MarkedString| marked_text(m)), "\n\n"@),
        HoverContents::Markup(v) => v@,
    }
}

/// Renders a hover answer.
pub fn hover_text(h: &HoverContents) -> (r: String)
    ensures
        r@ == hover_text_spec(*h),
{
    match h {
        HoverContents::Scalar(m) => markup_content_to_string(m),
        HoverContents::Array(a) => {
            let mut parts: Vec<Vec<char>> = Vec::new();
            let mut i: usize = 0;
            while i < a.len()
                invariant
                    i <= a.len(),
                    views(parts@) == a@.take(i as int).map_values(|m: MarkedString| marked_text(m)),
                decreases a.len() - i,
            {
                let s = markup_content_to_string(&a[i]);
                let ghost before = views(parts@);
                parts.push(chars_of(s.as_str()));
                assert(views(parts@) =~= before.push(marked_text(a@[i as int])));
                assert(a@.take(i + 1).map_values(|m: MarkedString| marked_text(m)) =~= a@.take(i as int).map_values(
                    |m: MarkedString| marked_text(m),
                ).push(marked_text(a@[i as int])));
                i = i + 1;
            }
            assert(a@.take(i as int) =~= a@);
            let sep = chars_of("\n\n");
            string_of(&join_vec(&parts, &sep))
        },
        HoverContents::Markup(v) => v.clone(),
    }
}

/// The reply when the server's answer is empty.
pub open spec fn empty_answer_text(op: LspOperation, query: Seq<char>) -> Seq<char> {
    match op {
        LspOperation::GoToDefinition => "No definition found at this position."@,
        LspOperation::FindReferences => "No references found."@,
        LspOperation::Hover => "No hover information at this position."@,
        LspOperation::DocumentSymbol => "No symbols found in document."@,
        LspOperation::WorkspaceSymbol => "No workspace symbols found for query '"@ + query + "'."@,
        LspOperation::GoToImplementation => "No implementation found at this position."@,
        LspOperation::PrepareCallHierarchy => "No call hierarchy item at this position."@,
        LspOperation::IncomingCalls => "No incoming calls found."@,
        LspOperation::OutgoingCalls => "No outgoing calls found."@,
        LspOperation::Diagnostics => "No diagnostics found."@,
    }
}

/// The reply for an empty answer to `op`; `query` is the workspace symbol
/// query.
pub fn empty_answer(op: LspOperation, query: &str) -> (r: String)
    ensures
        r@ == empty_answer_text(op, query@),
{
    match op {
        LspOperation::GoToDefinition => "No definition found at this position.".to_owned(),
        LspOperation::FindReferences => "No references found.".to_owned(),
        LspOperation::Hover => "No hover information at this position.".to_owned(),
        LspOperation::DocumentSymbol => "No symbols found in document.".to_owned(),
        LspOperation::WorkspaceSymbol => {
            let mut out = chars_of("No workspace symbols found for query '");
            append_str(&mut out, query);
            append_str(&mut out, "'.");
            string_of(&out)
        },
        LspOperation::GoToImplementation => "No implementation found at this position.".to_owned(),
        LspOperation::PrepareCallHierarchy => "No call hierarchy item at this position.".to_owned(),
        LspOperation::IncomingCalls => "No incoming calls found.".to_owned(),
        LspOperation::OutgoingCalls => "No outgoing calls found.".to_owned(),
        LspOperation::Diagnostics => "No diagnostics found.".to_owned(),
    }
}

/// The error when no server handles the file's type.
pub fn no_server_error(extension: Option<&str>) -> (r: String)
    ensures
        r@ == "no LSP server available for file type: "@ + match extension {
            Some(e) => e@,
            None => "unknown"@,
        },
{
    let mut out = chars_of("no LSP server available for file type: ");
    match extension {
        Some(e) => append_str(&mut out, e),
        None => append_str(&mut out, "unknown"),
    }
    string_of(&out)
}

} // verus!
