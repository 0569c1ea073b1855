//! Recipe runtime: the extraction modes applied to fetched bytes, the
//! scalar bound on extracted values, the PDF table detector and the
//! renderings used in provenance and error messages.

use vstd::prelude::*;
use vstd::utf8::{decode_utf8, encode_utf8, valid_utf8};
use crate::recipes::{ExtractionSpec, FetchRecipe, FieldMap, FieldValueSource, ProductionBinding, RecordType, RowFilter};
use crate::parsers::{
    capture_group, css_first_attr, css_first_text, csv_table, json_path_query,
    count_css_matches, css_outer_count, css_scoped_leaf, css_selector_error, json_outer_count, json_scoped_nodes, query_json_leaves, JsonLeavesOutcome,
    JsonLeavesView, ScopeNodes, css_scopes, json_literal_text, json_scopes, select_scoped_leaves, CssLeavesOutcome,
    CssLeavesView, literal_text, query_json_path, query_json_scoped, read_csv, regex_capture, select_first_attr,
    select_first_text, select_scoped, CssScopesOutcome, CssScopesView, JsonScopesOutcome, JsonScopesView,
    CssOutcome, CssView, CsvOutcome, CsvRow, CsvView, JsonNode, node_text, JsonQueryOutcome, JsonQueryView, RegexOutcome,
    RegexView,
};
use crate::content::{build_record, entries_model, model, not_producible_reason, spec_build_content, JsonModel, JsonValue};
use crate::research::ResearchPlan;
use crate::stamps::now_unix_millis;
use crate::strings::{chars_of, opt_as_str, opt_str_view, opt_string_view, string_of, utf8_error_text, utf8_str};
use crate::text::{
    decimal, is_white_space, is_white_space_exec, push_all, push_decimal, push_str, str_eq, trim,
    trim_chars, trim_end, trim_end_chars, trim_start, trim_start_chars,
};

verus! {

// ---------------------------------------------------------------------------
// Limits and errors
// ---------------------------------------------------------------------------

/// Maximum UTF-8 byte length of an extracted scalar value, in every mode.
pub const EXTRACTED_SCALAR_MAX_BYTES: usize = 2048;

/// Maximum character length of a content-assembly error reason before
/// it is shortened.
pub const CONTENT_ASSEMBLY_REASON_MAX_CHARS: usize = 600;

/// Hard cap on the records one iterator recipe may produce.
pub const MAX_RECORDS_PER_RECIPE: usize = 500;

/// Number of characters of an oversized extraction quoted in the error.
pub const BOUND_PREVIEW_CHARS: usize = 120;

/// Errors that can arise during apply. Each variant names the stage.
#[derive(Debug, Clone, PartialEq, Eq)]
pub enum ApplyError {
    Extraction { mode: &'static str, reason: String },
    NotImplemented { mode: &'static str, reason: String },
    Binding { index: usize, reason: String },
    FieldMapping { reason: String },
    ContentAssembly { reason: String },
    Normalization { reason: String },
}

/// The text an apply error displays.
pub open spec fn spec_apply_error_message(e: ApplyError) -> Seq<char> {
    match e {
        ApplyError::Extraction { mode, reason } => "extraction ["@ + mode@ + "]: "@ + reason@,
        ApplyError::NotImplemented { mode, reason } => "extraction mode not implemented: "@ + mode@ + " ("@ + reason@
            + ")"@,
        ApplyError::Binding { index, reason } => "binding["@ + decimal(index as nat) + "]: "@ + reason@,
        ApplyError::FieldMapping { reason } => "field mapping: "@ + reason@,
        ApplyError::ContentAssembly { reason } => "content assembly failed: "@ + reason@,
        ApplyError::Normalization { reason } => "normalization rejected record: "@ + reason@,
    }
}

impl ApplyError {
    /// The human-readable rendering of the error, naming its stage.
    pub fn message(&self) -> (r: String)
        ensures
            r@ == spec_apply_error_message(*self),
    {
        let mut out: Vec<char> = Vec::new();
        match self {
            ApplyError::Extraction { mode, reason } => {
                push_str(&mut out, "extraction [");
                push_str(&mut out, mode);
                push_str(&mut out, "]: ");
                push_str(&mut out, reason.as_str());
            },
            ApplyError::NotImplemented { mode, reason } => {
                push_str(&mut out, "extraction mode not implemented: ");
                push_str(&mut out, mode);
                push_str(&mut out, " (");
                push_str(&mut out, reason.as_str());
                push_str(&mut out, ")");
            },
            ApplyError::Binding { index, reason } => {
                push_str(&mut out, "binding[");
                push_decimal(&mut out, *index as u64);
                push_str(&mut out, "]: ");
                push_str(&mut out, reason.as_str());
            },
            ApplyError::FieldMapping { reason } => {
                push_str(&mut out, "field mapping: ");
                push_str(&mut out, reason.as_str());
            },
            ApplyError::ContentAssembly { reason } => {
                push_str(&mut out, "content assembly failed: ");
                push_str(&mut out, reason.as_str());
            },
            ApplyError::Normalization { reason } => {
                push_str(&mut out, "normalization rejected record: ");
                push_str(&mut out, reason.as_str());
            },
        }
        string_of(out.as_slice())
    }
}

/// The error value `Extraction { mode, reason }`, seen through views.
pub open spec fn is_extraction_error<T>(r: Result<T, ApplyError>, mode: Seq<char>, reason: Seq<char>) -> bool {
    match r {
        Err(ApplyError::Extraction { mode: m, reason: x }) => m@ == mode && x@ == reason,
        _ => false,
    }
}

// ---------------------------------------------------------------------------
// Renderings
// ---------------------------------------------------------------------------

/// The serde name of an extraction mode.
pub open spec fn spec_mode_name(spec: ExtractionSpec) -> Seq<char> {
    match spec {
        ExtractionSpec::JsonPath { .. } => "json_path"@,
        ExtractionSpec::CssSelect { .. } => "css_select"@,
        ExtractionSpec::CsvCell { .. } => "csv_cell"@,
        ExtractionSpec::PdfTable { .. } => "pdf_table"@,
        ExtractionSpec::RegexCapture { .. } => "regex_capture"@,
    }
}

/// Tag a closed-vocabulary mode with its serde-canonical name.
pub fn mode_name(spec: &ExtractionSpec) -> (r: &'static str)
    ensures
        r@ == spec_mode_name(*spec),
{
    match spec {
        ExtractionSpec::JsonPath { .. } => "json_path",
        ExtractionSpec::CssSelect { .. } => "css_select",
        ExtractionSpec::CsvCell { .. } => "csv_cell",
        ExtractionSpec::PdfTable { .. } => "pdf_table",
        ExtractionSpec::RegexCapture { .. } => "regex_capture",
    }
}

/// The provenance selector path of an extraction: `css:SEL`,
/// `css:SEL[ATTR]`, `json:PATH`, `csv:COL`, `csv:COL@FCOL=VALUE`,
/// `pdf:pP/tT/rR/cC` or `regex:group=G`.
pub open spec fn spec_render_selector_path(spec: ExtractionSpec) -> Seq<char> {
    match spec {
        ExtractionSpec::CssSelect { selector, attribute } => match attribute {
            Some(a) => "css:"@ + selector@ + "["@ + a@ + "]"@,
            None => "css:"@ + selector@,
        },
        ExtractionSpec::JsonPath { path } => "json:"@ + path@,
        ExtractionSpec::CsvCell { column, row_filter } => match row_filter {
            None => "csv:"@ + column@,
            Some(RowFilter::Equals { column: c, value }) => "csv:"@ + column@ + "@"@ + c@ + "="@ + value@,
            Some(RowFilter::LabeledAs { label_column, label }) => "csv:"@ + column@ + "@"@ + label_column@
                + "="@ + label@,
        },
        ExtractionSpec::PdfTable { page, table_index, row, col } => "pdf:p"@ + decimal(page as nat) + "/t"@
            + decimal(table_index as nat) + "/r"@ + decimal(row as nat) + "/c"@ + decimal(col as nat),
        ExtractionSpec::RegexCapture { group, .. } => "regex:group="@ + decimal(group as nat),
    }
}

/// Render the recipe's outer extraction as a selector path.
pub fn render_selector_path(spec: &ExtractionSpec) -> (r: String)
    ensures
        r@ == spec_render_selector_path(*spec),
{
    let mut out: Vec<char> = Vec::new();
    match spec {
        ExtractionSpec::CssSelect { selector, attribute } => {
            push_str(&mut out, "css:");
            push_str(&mut out, selector.as_str());
            match attribute {
                Some(a) => {
                    push_str(&mut out, "[");
                    push_str(&mut out, a.as_str());
                    push_str(&mut out, "]");
                },
                None => {},
            }
        },
        ExtractionSpec::JsonPath { path } => {
            push_str(&mut out, "json:");
            push_str(&mut out, path.as_str());
        },
        ExtractionSpec::CsvCell { column, row_filter } => {
            push_str(&mut out, "csv:");
            push_str(&mut out, column.as_str());
            match row_filter {
                None => {},
                Some(RowFilter::Equals { column: c, value }) => {
                    push_str(&mut out, "@");
                    push_str(&mut out, c.as_str());
                    push_str(&mut out, "=");
                    push_str(&mut out, value.as_str());
                },
                Some(RowFilter::LabeledAs { label_column, label }) => {
                    push_str(&mut out, "@");
                    push_str(&mut out, label_column.as_str());
                    push_str(&mut out, "=");
                    push_str(&mut out, label.as_str());
                },
            }
        },
        ExtractionSpec::PdfTable { page, table_index, row, col } => {
            push_str(&mut out, "pdf:p");
            push_decimal(&mut out, *page as u64);
            push_str(&mut out, "/t");
            push_decimal(&mut out, *table_index as u64);
            push_str(&mut out, "/r");
            push_decimal(&mut out, *row as u64);
            push_str(&mut out, "/c");
            push_decimal(&mut out, *col as u64);
        },
        ExtractionSpec::RegexCapture { group, .. } => {
            push_str(&mut out, "regex:group=");
            push_decimal(&mut out, *group as u64);
        },
    }
    string_of(out.as_slice())
}

// ---------------------------------------------------------------------------
// Provenance
// ---------------------------------------------------------------------------

/// `{source_id}#recipe:{recipe_id}@v{version}`
pub open spec fn spec_recipe_source_id(source_id: Seq<char>, recipe_id: Seq<char>, version: nat) -> Seq<char> {
    source_id + "#recipe:"@ + recipe_id + "@v"@ + decimal(version)
}

/// The source id a record produced by `recipe` carries: the recipe's
/// source, then `#recipe:`, the recipe's id and `@v` with its version.
/// Re-extraction routes a stored document back to its recipe by it.
pub fn recipe_source_id(recipe: &FetchRecipe) -> (r: String)
    ensures
        r@ == spec_recipe_source_id(recipe.source_id@, recipe.id@, recipe.version as nat),
{
    let mut out: Vec<char> = Vec::new();
    push_str(&mut out, recipe.source_id.as_str());
    push_str(&mut out, "#recipe:");
    push_str(&mut out, recipe.id.as_str());
    push_str(&mut out, "@v");
    push_decimal(&mut out, recipe.version as u64);
    string_of(out.as_slice())
}

/// Most characters of the leaf excerpt a record's provenance carries.
pub const RAW_BYTES_EXCERPT_CAP: usize = 256;

/// The excerpt: `s` itself when it has at most `RAW_BYTES_EXCERPT_CAP`
/// characters, else its first `RAW_BYTES_EXCERPT_CAP` characters and `…`.
pub open spec fn spec_truncate_excerpt(s: Seq<char>) -> Seq<char> {
    if s.len() <= RAW_BYTES_EXCERPT_CAP {
        s
    } else {
        s.take(RAW_BYTES_EXCERPT_CAP as int).push('\u{2026}')
    }
}

/// Cap an excerpt of the extracted leaf at `RAW_BYTES_EXCERPT_CAP`
/// characters, marking a cut with `…`. Counts characters, so a cut never
/// splits one.
pub fn truncate_excerpt(s: &str) -> (r: String)
    ensures
        r@ == spec_truncate_excerpt(s@),
{
    let chars = chars_of(s);
    if chars.len() <= RAW_BYTES_EXCERPT_CAP {
        string_of(chars.as_slice())
    } else {
        let mut head = crate::strings::copy_range(chars.as_slice(), 0, RAW_BYTES_EXCERPT_CAP);
        head.push('\u{2026}');
        assert(head@ =~= s@.take(RAW_BYTES_EXCERPT_CAP as int).push('\u{2026}'));
        string_of(head.as_slice())
    }
}

// ---------------------------------------------------------------------------
// The scalar bound
// ---------------------------------------------------------------------------

/// What `{:?}` renders a string slice as.
pub uninterp spec fn debug_str(s: Seq<char>) -> Seq<char>;

/// `<str as Debug>::fmt`: the quoted, escaped rendering of `s`. The
/// contract only names the result; the escaping rules are not stated.
#[verifier::external_body]
pub(crate) fn debug_quoted(s: &str) -> (r: String)
    ensures
        r@ == debug_str(s@),
{
    format!("{:?}", s)
}

/// At most the first `n` characters of `s`.
pub open spec fn prefix_chars(s: Seq<char>, n: nat) -> Seq<char> {
    if s.len() <= n {
        s
    } else {
        s.take(n as int)
    }
}

/// The reason reported for an extraction of `len` bytes whose preview
/// renders as `preview`.
pub open spec fn bound_reason(len: nat, preview: Seq<char>) -> Seq<char> {
    "extraction returned "@ + decimal(len)
        + " bytes; recipes produce single scalar values and the runtime caps individual field values at "@
        + decimal(EXTRACTED_SCALAR_MAX_BYTES as nat)
        + " bytes. Likely cause: the selector matches a container element (body, div, table) instead of a leaf, or the JSON path resolves to an object/array instead of a scalar. Refine the recipe to target a leaf value. Preview: "@
        + preview
}

/// Whether an extracted value fits the scalar bound.
pub open spec fn within_bound(out: Seq<char>) -> bool {
    encode_utf8(out).len() <= EXTRACTED_SCALAR_MAX_BYTES
}

/// The scalar bound: `out` itself when it fits, otherwise the reason
/// reported for it.
pub open spec fn spec_bound(out: Seq<char>) -> Result<Seq<char>, Seq<char>> {
    if within_bound(out) {
        Ok(out)
    } else {
        Err(bound_reason(encode_utf8(out).len(), debug_str(prefix_chars(out, BOUND_PREVIEW_CHARS as nat))))
    }
}

/// `r` is the extraction outcome `expected`: the same value, or an
/// `Extraction` error in `mode` with the same reason.
pub open spec fn outcome_matches(
    r: Result<String, ApplyError>,
    expected: Result<Seq<char>, Seq<char>>,
    mode: Seq<char>,
) -> bool {
    match expected {
        Ok(v) => r matches Ok(s) && s@ == v,
        Err(reason) => is_extraction_error(r, mode, reason),
    }
}

/// Reject an extraction whose UTF-8 length exceeds the scalar bound;
/// pass it through unchanged otherwise.
pub fn bound_extracted(out: String, mode: &'static str) -> (r: Result<String, ApplyError>)
    ensures
        outcome_matches(r, spec_bound(out@), mode@),
{
    let len = crate::strings::utf8_len(out.as_str());
    if len <= EXTRACTED_SCALAR_MAX_BYTES {
        return Ok(out);
    }
    let chars = chars_of(out.as_str());
    let shown = if chars.len() <= BOUND_PREVIEW_CHARS {
        BOUND_PREVIEW_CHARS - BOUND_PREVIEW_CHARS + chars.len()
    } else {
        BOUND_PREVIEW_CHARS
    };
    let preview_chars = crate::strings::copy_range(chars.as_slice(), 0, shown);
    proof {
        assert(preview_chars@ =~= prefix_chars(out@, BOUND_PREVIEW_CHARS as nat));
    }
    let preview = string_of(preview_chars.as_slice());
    let quoted = debug_quoted(preview.as_str());
    let mut reason: Vec<char> = Vec::new();
    push_str(&mut reason, "extraction returned ");
    push_decimal(&mut reason, len as u64);
    push_str(&mut reason, " bytes; recipes produce single scalar values and the runtime caps individual field values at ");
    push_decimal(&mut reason, EXTRACTED_SCALAR_MAX_BYTES as u64);
    push_str(&mut reason, " bytes. Likely cause: the selector matches a container element (body, div, table) instead of a leaf, or the JSON path resolves to an object/array instead of a scalar. Refine the recipe to target a leaf value. Preview: ");
    let q = chars_of(quoted.as_str());
    push_all(&mut reason, q.as_slice());
    Err(ApplyError::Extraction { mode, reason: string_of(reason.as_slice()) })
}

// ---------------------------------------------------------------------------
// Content-assembly reasons
// ---------------------------------------------------------------------------

/// Characters kept from the head of an over-long reason.
pub const REASON_HEAD_CHARS: usize = 368;

/// Characters kept from the tail of an over-long reason.
pub const REASON_TAIL_CHARS: usize = 184;

/// A reason of at most `CONTENT_ASSEMBLY_REASON_MAX_CHARS` characters is
/// kept; a longer one keeps its head and tail around a marker that
/// names the full length.
pub open spec fn spec_truncate_reason(r: Seq<char>) -> Seq<char> {
    if r.len() <= CONTENT_ASSEMBLY_REASON_MAX_CHARS {
        r
    } else {
        r.take(REASON_HEAD_CHARS as int) + " … [value truncated, total "@ + decimal(r.len())
            + " chars] … "@ + r.skip(r.len() - REASON_TAIL_CHARS)
    }
}

/// Shorten a content-assembly reason that grew too long.
pub fn truncate_content_assembly_reason(reason: String) -> (r: String)
    ensures
        r@ == spec_truncate_reason(reason@),
{
    let chars = chars_of(reason.as_str());
    let total = chars.len();
    if total <= CONTENT_ASSEMBLY_REASON_MAX_CHARS {
        return reason;
    }
    let head = crate::strings::copy_range(chars.as_slice(), 0, REASON_HEAD_CHARS);
    let tail = crate::strings::copy_range(chars.as_slice(), total - REASON_TAIL_CHARS, total);
    let mut out: Vec<char> = Vec::new();
    push_all(&mut out, head.as_slice());
    push_str(&mut out, " … [value truncated, total ");
    push_decimal(&mut out, total as u64);
    push_str(&mut out, " chars] … ");
    push_all(&mut out, tail.as_slice());
    proof {
        assert(head@ =~= reason@.take(REASON_HEAD_CHARS as int));
        assert(tail@ =~= reason@.skip(reason@.len() - REASON_TAIL_CHARS));
    }
    string_of(out.as_slice())
}

/// `10^k`.
pub open spec fn pow10(k: nat) -> nat
    decreases k,
{
    if k == 0 {
        1
    } else {
        10 * pow10((k - 1) as nat)
    }
}

proof fn lemma_decimal_len(n: nat, k: nat)
    requires
        k >= 1,
        n < pow10(k),
    ensures
        decimal(n).len() <= k,
    decreases n,
{
    if n >= 10 {
        let p = pow10((k - 1) as nat);
        assert(k >= 2) by {
            if k == 1 {
                assert(pow10(1) == 10);
            }
        }
        assert(n / 10 < p) by (nonlinear_arith)
            requires
                n < 10 * p,
        ;
        lemma_decimal_len(n / 10, (k - 1) as nat);
    }
}

/// Law: a shortened reason stays near the cap, and any reason keeps its
/// head and its tail and names its full length; a reason within the
/// cap is kept as it is.
pub proof fn law_truncated_reason_keeps_head_and_tail(r: Seq<char>)
    requires
        r.len() <= usize::MAX,
    ensures
        spec_truncate_reason(r).len() <= CONTENT_ASSEMBLY_REASON_MAX_CHARS + 32,
        r.len() <= CONTENT_ASSEMBLY_REASON_MAX_CHARS ==> spec_truncate_reason(r) == r,
        r.len() > CONTENT_ASSEMBLY_REASON_MAX_CHARS ==> {
            let t = spec_truncate_reason(r);
            &&& t.take(REASON_HEAD_CHARS as int) == r.take(REASON_HEAD_CHARS as int)
            &&& t.skip(t.len() - REASON_TAIL_CHARS) == r.skip(r.len() - REASON_TAIL_CHARS)
        },
{
    if r.len() > CONTENT_ASSEMBLY_REASON_MAX_CHARS {
        reveal_strlit(" … [value truncated, total ");
        reveal_strlit(" chars] … ");
        assert(pow10(20) == 100000000000000000000) by {
            reveal_with_fuel(pow10, 21);
        }
        lemma_decimal_len(r.len(), 20);
        let t = spec_truncate_reason(r);
        let head = r.take(REASON_HEAD_CHARS as int);
        let tail = r.skip(r.len() - REASON_TAIL_CHARS);
        let mid = " … [value truncated, total "@ + decimal(r.len()) + " chars] … "@;
        assert(t == head + mid + tail);
        assert(t.take(REASON_HEAD_CHARS as int) =~= head);
        assert(t.skip(t.len() - REASON_TAIL_CHARS) =~= tail);
    }
}

// ---------------------------------------------------------------------------
// PDF table detection
// ---------------------------------------------------------------------------

/// `cur` as a one-token list when it is not empty.
pub open spec fn emit(cur: Seq<char>) -> Seq<Seq<char>> {
    if cur.len() > 0 {
        seq![cur]
    } else {
        Seq::empty()
    }
}

/// The whitespace-separated tokens of `s[i..]`, the first of which
/// continues the partial token `cur`.
pub open spec fn tokens_from(s: Seq<char>, i: int, cur: Seq<char>) -> Seq<Seq<char>>
    decreases s.len() - i,
{
    if i >= s.len() {
        emit(cur)
    } else if is_white_space(s[i]) {
        emit(cur) + tokens_from(s, i + 1, Seq::empty())
    } else {
        tokens_from(s, i + 1, cur.push(s[i]))
    }
}

/// The maximal runs of non-whitespace characters of `s`, in order
/// (`str::split_whitespace`).
pub open spec fn tokens(s: Seq<char>) -> Seq<Seq<char>> {
    tokens_from(s, 0, Seq::empty())
}

fn tokenize_chars(s: &[char]) -> (r: Vec<String>)
    ensures
        r.deep_view() == tokens(s@),
{
    let mut out: Vec<String> = Vec::new();
    let mut cur: Vec<char> = Vec::new();
    let mut i: usize = 0;
    while i < s.len()
        invariant
            i <= s.len(),
            out.deep_view() + tokens_from(s@, i as int, cur@) == tokens(s@),
        decreases s.len() - i,
    {
        let ghost before = out.deep_view();
        if is_white_space_exec(s[i]) {
            let ghost old_cur = cur@;
            if cur.len() > 0 {
                out.push(string_of(cur.as_slice()));
            }
            assert(out.deep_view() =~= before + emit(old_cur));
            cur = Vec::new();
            assert(cur@ =~= Seq::<char>::empty());
            assert(before + (emit(old_cur) + tokens_from(s@, i + 1, Seq::empty())) =~= out.deep_view()
                + tokens_from(s@, i + 1, cur@));
        } else {
            let ghost old_cur = cur@;
            cur.push(s[i]);
            assert(cur@ == old_cur.push(s@[i as int]));
        }
        i += 1;
    }
    if cur.len() > 0 {
        let ghost before = out.deep_view();
        out.push(string_of(cur.as_slice()));
        assert(out.deep_view() =~= before + emit(cur@));
    } else {
        assert(out.deep_view() =~= out.deep_view() + emit(cur@));
    }
    out
}

/// Split a line into tokens at every run of whitespace.
pub fn tokenize_line(s: &str) -> (r: Vec<String>)
    ensures
        r.deep_view() == tokens(s@),
{
    let c = chars_of(s);
    tokenize_chars(c.as_slice())
}

/// The pieces of `s[i..]` between newlines, the first continuing `cur`.
pub open spec fn lines_from(s: Seq<char>, i: int, cur: Seq<char>) -> Seq<Seq<char>>
    decreases s.len() - i,
{
    if i >= s.len() {
        seq![cur]
    } else if s[i] == '\n' {
        seq![cur] + lines_from(s, i + 1, Seq::empty())
    } else {
        lines_from(s, i + 1, cur.push(s[i]))
    }
}

/// The pieces of `s` between newlines. A carriage return before a
/// newline stays in its piece, and a trailing newline yields an empty
/// last piece; both are whitespace, which the detector ignores.
pub open spec fn line_pieces(s: Seq<char>) -> Seq<Seq<char>> {
    lines_from(s, 0, Seq::empty())
}

/// A cluster of rows is kept as a table when it has at least two rows.
pub open spec fn flush(
    tables: Seq<Seq<Seq<Seq<char>>>>,
    cur: Seq<Seq<Seq<char>>>,
) -> Seq<Seq<Seq<Seq<char>>>> {
    if cur.len() >= 2 {
        tables.push(cur)
    } else {
        tables
    }
}

/// One line's effect on the detector: a blank line is skipped; a
/// single-token line closes the open cluster; a line with the cluster's
/// token count extends it; any other line closes it and opens a new one.
pub open spec fn table_step(
    st: (Seq<Seq<Seq<Seq<char>>>>, Seq<Seq<Seq<char>>>),
    toks: Seq<Seq<char>>,
) -> (Seq<Seq<Seq<Seq<char>>>>, Seq<Seq<Seq<char>>>) {
    if toks.len() == 0 {
        st
    } else if toks.len() == 1 {
        (flush(st.0, st.1), Seq::empty())
    } else if st.1.len() > 0 && st.1[0].len() == toks.len() {
        (st.0, st.1.push(toks))
    } else {
        (flush(st.0, st.1), seq![toks])
    }
}

/// The detector's state after the given token lists, one per line.
pub open spec fn table_scan(rows: Seq<Seq<Seq<char>>>) -> (Seq<Seq<Seq<Seq<char>>>>, Seq<Seq<Seq<char>>>)
    decreases rows.len(),
{
    if rows.len() == 0 {
        (Seq::empty(), Seq::empty())
    } else {
        table_step(table_scan(rows.drop_last()), rows.last())
    }
}

/// The token lists of the lines of `text`.
pub open spec fn line_tokens(text: Seq<char>) -> Seq<Seq<Seq<char>>> {
    line_pieces(text).map_values(|l: Seq<char>| tokens(l))
}

/// The tables of a page: maximal runs of non-blank lines with equal
/// token counts of at least two, of at least two rows each.
pub open spec fn spec_detect_pdf_tables(text: Seq<char>) -> Seq<Seq<Seq<Seq<char>>>> {
    let st = table_scan(line_tokens(text));
    flush(st.0, st.1)
}

/// A well-formed table: at least two rows, each with the same number of
/// cells, at least two.
pub open spec fn is_table(t: Seq<Seq<Seq<char>>>) -> bool {
    &&& t.len() >= 2
    &&& t[0].len() >= 2
    &&& forall|r: int| 0 <= r < t.len() ==> #[trigger] t[r].len() == t[0].len()
}

/// An open cluster: empty, or rows of one common token count of at least two.
pub open spec fn is_cluster(t: Seq<Seq<Seq<char>>>) -> bool {
    t.len() > 0 ==> (t[0].len() >= 2 && forall|r: int| 0 <= r < t.len() ==> #[trigger] t[r].len() == t[0].len())
}

pub open spec fn all_tables(ts: Seq<Seq<Seq<Seq<char>>>>) -> bool {
    forall|k: int| 0 <= k < ts.len() ==> is_table(#[trigger] ts[k])
}

proof fn lemma_scan_shape(rows: Seq<Seq<Seq<char>>>)
    ensures
        all_tables(table_scan(rows).0),
        is_cluster(table_scan(rows).1),
    decreases rows.len(),
{
    if rows.len() > 0 {
        lemma_scan_shape(rows.drop_last());
        let st = table_scan(rows.drop_last());
        let st2 = table_scan(rows);
        assert(st2 == table_step(st, rows.last()));
        assert(all_tables(flush(st.0, st.1)));
        if rows.last().len() >= 2 && st.1.len() > 0 && st.1[0].len() == rows.last().len() {
            assert(is_cluster(st.1.push(rows.last())));
        }
    }
}

/// Law: every detected table has at least two rows, and every row of a
/// table has the same number of cells, at least two.
pub proof fn law_detected_tables_are_rectangular(text: Seq<char>)
    ensures
        all_tables(spec_detect_pdf_tables(text)),
{
    lemma_scan_shape(line_tokens(text));
}

fn flush_exec(tables: &mut Vec<Vec<Vec<String>>>, current: &mut Vec<Vec<String>>)
    ensures
        final(tables).deep_view() == flush(old(tables).deep_view(), old(current).deep_view()),
        final(current)@.len() == 0,
{
    let mut taken: Vec<Vec<String>> = Vec::new();
    std::mem::swap(&mut taken, current);
    if taken.len() >= 2 {
        let ghost before = tables.deep_view();
        tables.push(taken);
        assert(tables.deep_view() =~= before.push(taken.deep_view()));
    }
}

fn step_exec(tables: &mut Vec<Vec<Vec<String>>>, current: &mut Vec<Vec<String>>, toks: Vec<String>)
    ensures
        (final(tables).deep_view(), final(current).deep_view()) == table_step(
            (old(tables).deep_view(), old(current).deep_view()),
            toks.deep_view(),
        ),
{
    if toks.len() == 0 {
        return;
    }
    if toks.len() == 1 {
        flush_exec(tables, current);
        assert(current.deep_view() =~= Seq::<Seq<Seq<char>>>::empty());
        return;
    }
    if current.len() > 0 && current[0].len() == toks.len() {
        let ghost before = current.deep_view();
        current.push(toks);
        assert(current.deep_view() =~= before.push(toks.deep_view()));
        return;
    }
    flush_exec(tables, current);
    let ghost dv = toks.deep_view();
    current.push(toks);
    assert(current.deep_view() =~= seq![dv]);
}

proof fn lemma_map_push(xs: Seq<Seq<char>>, x: Seq<char>)
    ensures
        xs.push(x).map_values(|l: Seq<char>| tokens(l)) == xs.map_values(|l: Seq<char>| tokens(l)).push(
            tokens(x),
        ),
{
    assert(xs.push(x).map_values(|l: Seq<char>| tokens(l)) =~= xs.map_values(|l: Seq<char>| tokens(l)).push(
        tokens(x),
    ));
}

proof fn lemma_scan_push(rows: Seq<Seq<Seq<char>>>, r: Seq<Seq<char>>)
    ensures
        table_scan(rows.push(r)) == table_step(table_scan(rows), r),
{
    assert(rows.push(r).drop_last() =~= rows);
}

/// Detect the tables of one page's text, in reading order; each table
/// is a list of rows, each row a list of cells.
pub fn detect_pdf_tables(page_text: &str) -> (r: Vec<Vec<Vec<String>>>)
    ensures
        r.deep_view() == spec_detect_pdf_tables(page_text@),
        all_tables(r.deep_view()),
{
    let s = chars_of(page_text);
    let mut tables: Vec<Vec<Vec<String>>> = Vec::new();
    let mut current: Vec<Vec<String>> = Vec::new();
    let mut line: Vec<char> = Vec::new();
    let ghost mut done: Seq<Seq<char>> = Seq::empty();
    let mut i: usize = 0;
    assert(tables.deep_view() =~= Seq::<Seq<Seq<Seq<char>>>>::empty());
    assert(current.deep_view() =~= Seq::<Seq<Seq<char>>>::empty());
    assert(done.map_values(|l: Seq<char>| tokens(l)) =~= Seq::<Seq<Seq<char>>>::empty());
    while i < s.len()
        invariant
            i <= s.len(),
            s@ == page_text@,
            done + lines_from(s@, i as int, line@) == line_pieces(s@),
            (tables.deep_view(), current.deep_view()) == table_scan(
                done.map_values(|l: Seq<char>| tokens(l)),
            ),
        decreases s.len() - i,
    {
        if s[i] == '\n' {
            let toks = tokenize_chars(line.as_slice());
            proof {
                lemma_map_push(done, line@);
                lemma_scan_push(done.map_values(|l: Seq<char>| tokens(l)), tokens(line@));
                assert(done.push(line@) + lines_from(s@, i + 1, Seq::empty()) =~= done + (seq![line@]
                    + lines_from(s@, i + 1, Seq::empty())));
                done = done.push(line@);
            }
            step_exec(&mut tables, &mut current, toks);
            line = Vec::new();
            assert(line@ =~= Seq::<char>::empty());
        } else {
            let ghost old_line = line@;
            line.push(s[i]);
            assert(line@ == old_line.push(s@[i as int]));
        }
        i += 1;
    }
    let toks = tokenize_chars(line.as_slice());
    proof {
        lemma_map_push(done, line@);
        lemma_scan_push(done.map_values(|l: Seq<char>| tokens(l)), tokens(line@));
        assert(done.push(line@) =~= line_pieces(s@));
    }
    step_exec(&mut tables, &mut current, toks);
    flush_exec(&mut tables, &mut current);
    proof {
        law_detected_tables_are_rectangular(page_text@);
    }
    tables
}

// ---------------------------------------------------------------------------
// Schema-aware coercion
// ---------------------------------------------------------------------------

/// The dot-separated content paths whose schema type is a JSON string,
/// per record type. Document and Assertion have none.
pub open spec fn spec_path_expects_string(record_type: RecordType, p: Seq<char>) -> bool {
    match record_type {
        RecordType::Observation => p == "metric"@ || p == "unit"@ || p == "currency"@ || p == "period"@,
        RecordType::Event => p == "event_type"@ || p == "headline"@ || p == "direction"@ || p
            == "magnitude.metric"@ || p == "magnitude.unit"@ || p == "magnitude.currency"@ || p
            == "magnitude.period"@,
        RecordType::Relation => p == "kind"@ || p == "from"@ || p == "to"@ || p == "magnitude.metric"@
            || p == "magnitude.unit"@ || p == "magnitude.currency"@ || p == "magnitude.period"@,
        RecordType::Entity => p == "entity_id"@ || p == "kind"@ || p == "canonical_name"@,
        RecordType::Document | RecordType::Assertion => false,
    }
}

/// Whether the field at `path` of a record of `record_type` is
/// schema-typed as a JSON string.
pub fn path_expects_string(record_type: RecordType, path: &str) -> (r: bool)
    ensures
        r == spec_path_expects_string(record_type, path@),
{
    match record_type {
        RecordType::Observation => str_eq(path, "metric") || str_eq(path, "unit") || str_eq(path, "currency")
            || str_eq(path, "period"),
        RecordType::Event => str_eq(path, "event_type") || str_eq(path, "headline") || str_eq(
            path,
            "direction",
        ) || str_eq(path, "magnitude.metric") || str_eq(path, "magnitude.unit") || str_eq(
            path,
            "magnitude.currency",
        ) || str_eq(path, "magnitude.period"),
        RecordType::Relation => str_eq(path, "kind") || str_eq(path, "from") || str_eq(path, "to")
            || str_eq(path, "magnitude.metric") || str_eq(path, "magnitude.unit") || str_eq(
            path,
            "magnitude.currency",
        ) || str_eq(path, "magnitude.period"),
        RecordType::Entity => str_eq(path, "entity_id") || str_eq(path, "kind") || str_eq(
            path,
            "canonical_name",
        ),
        RecordType::Document | RecordType::Assertion => false,
    }
}

// ---------------------------------------------------------------------------
// Thousand separators
// ---------------------------------------------------------------------------

pub open spec fn is_ascii_digit(c: char) -> bool {
    '0' <= c && c <= '9'
}

/// Characters of the numeric body: digits, comma, period and signs.
pub open spec fn is_body_char(c: char) -> bool {
    is_ascii_digit(c) || c == ',' || c == '.' || c == '-' || c == '+'
}

/// Index of the first character at or after `i` outside the numeric
/// body alphabet, or the length.
pub open spec fn body_end_from(s: Seq<char>, i: int) -> int
    decreases s.len() - i,
{
    if i >= s.len() {
        s.len() as int
    } else if !is_body_char(s[i]) {
        i
    } else {
        body_end_from(s, i + 1)
    }
}

/// Index of the last `.` in `s[..n]`, or -1.
pub open spec fn last_dot_before(s: Seq<char>, n: int) -> int
    decreases n,
{
    if n <= 0 {
        -1
    } else if s[n - 1] == '.' {
        n - 1
    } else {
        last_dot_before(s, n - 1)
    }
}

pub open spec fn all_digits(s: Seq<char>) -> bool {
    forall|j: int| 0 <= j < s.len() ==> is_ascii_digit(#[trigger] s[j])
}

/// Canonical thousands grouping: one to three digits, then any number
/// of groups of a comma and three digits.
pub open spec fn grouped(s: Seq<char>) -> bool
    decreases s.len(),
{
    if s.len() >= 4 && s[s.len() - 4] == ',' {
        all_digits(s.subrange(s.len() - 3, s.len() as int)) && grouped(s.subrange(0, s.len() - 4))
    } else {
        1 <= s.len() <= 3 && all_digits(s)
    }
}

/// `s` without its commas.
pub open spec fn strip_commas(s: Seq<char>) -> Seq<char>
    decreases s.len(),
{
    if s.len() == 0 {
        s
    } else {
        strip_commas(s.drop_last()) + if s.last() == ',' {
            Seq::empty()
        } else {
            seq![s.last()]
        }
    }
}

/// The thousand-separator normalisation: a string without commas is
/// kept; otherwise the numeric body (the leading run of digits, commas,
/// periods and signs) loses a leading sign (`-` is kept in front, `+`
/// dropped), and every comma must sit in its integer part (before the
/// last period), canonically grouped; the integer part then loses its
/// commas and the fraction and any suffix are kept as they are.
pub open spec fn spec_strip_thousands(s: Seq<char>) -> Option<Seq<char>> {
    if !s.contains(',') {
        Some(s)
    } else {
        let e = body_end_from(s, 0);
        let body0 = s.subrange(0, e);
        let suffix = s.subrange(e, s.len() as int);
        let sign = if body0.len() > 0 && body0[0] == '-' {
            "-"@
        } else {
            Seq::empty()
        };
        let body = if body0.len() > 0 && (body0[0] == '-' || body0[0] == '+') {
            body0.drop_first()
        } else {
            body0
        };
        let d = last_dot_before(body, body.len() as int);
        let int_part = if d >= 0 {
            body.subrange(0, d)
        } else {
            body
        };
        let frac = if d >= 0 {
            body.subrange(d, body.len() as int)
        } else {
            Seq::empty()
        };
        if (int_part.contains(',') && !grouped(int_part)) || (frac + suffix).contains(',') {
            None
        } else {
            Some(sign + strip_commas(int_part) + frac + suffix)
        }
    }
}

proof fn lemma_strip_commas_has_none(s: Seq<char>)
    ensures
        !strip_commas(s).contains(','),
    decreases s.len(),
{
    if s.len() > 0 {
        lemma_strip_commas_has_none(s.drop_last());
        let a = strip_commas(s.drop_last());
        let b = if s.last() == ',' {
            Seq::<char>::empty()
        } else {
            seq![s.last()]
        };
        if (a + b).contains(',') {
            let w = choose|w: int| 0 <= w < (a + b).len() && (a + b)[w] == ',';
            if w < a.len() {
                assert(a[w] == ',');
            }
        }
    }
}

/// Law: a normalised candidate holds no comma at all; every comma was a
/// canonical thousands separator and is gone.
pub proof fn law_stripped_candidate_has_no_commas(s: Seq<char>)
    ensures
        spec_strip_thousands(s) matches Some(t) ==> !t.contains(','),
{
    if s.contains(',') {
        let e = body_end_from(s, 0);
        let body0 = s.subrange(0, e);
        let body = if body0.len() > 0 && (body0[0] == '-' || body0[0] == '+') {
            body0.drop_first()
        } else {
            body0
        };
        let d = last_dot_before(body, body.len() as int);
        let int_part = if d >= 0 {
            body.subrange(0, d)
        } else {
            body
        };
        lemma_strip_commas_has_none(int_part);
        if spec_strip_thousands(s) is Some {
            let t = spec_strip_thousands(s)->0;
            let sign = if body0.len() > 0 && body0[0] == '-' {
                "-"@
            } else {
                Seq::<char>::empty()
            };
            reveal_strlit("-");
            let frac = if d >= 0 {
                body.subrange(d, body.len() as int)
            } else {
                Seq::<char>::empty()
            };
            let rest = frac + s.subrange(e, s.len() as int);
            assert(t == sign + strip_commas(int_part) + rest);
            if t.contains(',') {
                let w = choose|w: int| 0 <= w < t.len() && t[w] == ',';
                if w < sign.len() {
                    assert(sign[w] == '-');
                } else if w < sign.len() + strip_commas(int_part).len() {
                    assert(strip_commas(int_part)[w - sign.len()] == ',');
                } else {
                    assert(rest[w - sign.len() - strip_commas(int_part).len()] == ',');
                }
            }
        }
    }
}

fn contains_char(s: &[char], c: char) -> (r: bool)
    ensures
        r == s@.contains(c),
{
    let mut k: usize = 0;
    while k < s.len()
        invariant
            k <= s.len(),
            forall|j: int| 0 <= j < k ==> s@[j] != c,
        decreases s.len() - k,
    {
        if s[k] == c {
            assert(s@[k as int] == c);
            return true;
        }
        k += 1;
    }
    false
}

fn is_digit_exec(c: char) -> (r: bool)
    ensures
        r == is_ascii_digit(c),
{
    '0' <= c && c <= '9'
}

fn grouped_exec(s: &[char]) -> (r: bool)
    ensures
        r == grouped(s@),
{
    let mut j: usize = s.len();
    assert(s@.subrange(0, s.len() as int) =~= s@);
    while j >= 4 && s[j - 4] == ','
        invariant
            j <= s.len(),
            grouped(s@) == grouped(s@.subrange(0, j as int)),
        decreases j,
    {
        let ghost t = s@.subrange(0, j as int);
        if !(is_digit_exec(s[j - 3]) && is_digit_exec(s[j - 2]) && is_digit_exec(s[j - 1])) {
            assert(!all_digits(t.subrange(t.len() - 3, t.len() as int))) by {
                let u = t.subrange(t.len() - 3, t.len() as int);
                if !is_ascii_digit(s@[j - 3]) {
                    assert(u[0] == s@[j - 3]);
                } else if !is_ascii_digit(s@[j - 2]) {
                    assert(u[1] == s@[j - 2]);
                } else {
                    assert(u[2] == s@[j - 1]);
                }
            }
            return false;
        }
        assert(all_digits(t.subrange(t.len() - 3, t.len() as int)));
        assert(t.subrange(0, t.len() - 4) =~= s@.subrange(0, j - 4));
        j -= 4;
    }
    let ghost t = s@.subrange(0, j as int);
    if j < 1 || j > 3 {
        return false;
    }
    assert(grouped(t) == all_digits(t));
    let mut k: usize = 0;
    while k < j
        invariant
            k <= j <= s.len(),
            1 <= j <= 3,
            t == s@.subrange(0, j as int),
            grouped(s@) == all_digits(t),
            forall|i: int| 0 <= i < k ==> is_ascii_digit(#[trigger] s@[i]),
        decreases j - k,
    {
        if !is_digit_exec(s[k]) {
            assert(t[k as int] == s@[k as int]);
            return false;
        }
        k += 1;
    }
    assert forall|i: int| 0 <= i < t.len() implies is_ascii_digit(#[trigger] t[i]) by {
        assert(t[i] == s@[i]);
    }
    true
}

fn strip_commas_exec(s: &[char], out: &mut Vec<char>)
    ensures
        final(out)@ == old(out)@ + strip_commas(s@),
{
    let mut k: usize = 0;
    while k < s.len()
        invariant
            k <= s.len(),
            out@ == old(out)@ + strip_commas(s@.take(k as int)),
        decreases s.len() - k,
    {
        assert(s@.take(k + 1).drop_last() =~= s@.take(k as int));
        if s[k] != ',' {
            out.push(s[k]);
        }
        k += 1;
        assert(out@ =~= old(out)@ + strip_commas(s@.take(k as int)));
    }
    assert(s@.take(s.len() as int) =~= s@);
}

/// Drop canonical thousand separators from a numeric candidate; `None`
/// when a comma in the integer part is not in canonical position.
pub fn strip_thousand_separator_commas(s: &str) -> (r: Option<String>)
    ensures
        match r {
            Some(t) => spec_strip_thousands(s@) == Some(t@),
            None => spec_strip_thousands(s@) is None,
        },
{
    let c = chars_of(s);
    if !contains_char(c.as_slice(), ',') {
        return Some(string_of(c.as_slice()));
    }
    let mut e: usize = 0;
    while e < c.len() && (is_digit_exec(c[e]) || c[e] == ',' || c[e] == '.' || c[e] == '-' || c[e] == '+')
        invariant
            e <= c.len(),
            body_end_from(c@, 0) == body_end_from(c@, e as int),
        decreases c.len() - e,
    {
        e += 1;
    }
    let ghost body0 = c@.subrange(0, e as int);
    let mut out: Vec<char> = Vec::new();
    let mut start: usize = 0;
    if e > 0 && c[0] == '-' {
        out.push('-');
        start = 1;
    } else if e > 0 && c[0] == '+' {
        start = 1;
    }
    assert(out@ =~= (if body0.len() > 0 && body0[0] == '-' { "-"@ } else { Seq::<char>::empty() })) by {
        reveal_strlit("-");
    }
    let ghost body = c@.subrange(start as int, e as int);
    assert(body =~= (if body0.len() > 0 && (body0[0] == '-' || body0[0] == '+') {
        body0.drop_first()
    } else {
        body0
    }));
    let mut d: usize = e;
    while d > start && c[d - 1] != '.'
        invariant
            start <= d <= e <= c.len(),
            body == c@.subrange(start as int, e as int),
            last_dot_before(body, body.len() as int) == last_dot_before(body, d - start),
        decreases d,
    {
        assert(body[d - start - 1] == c@[d - 1]);
        d -= 1;
    }
    let int_end = if d > start {
        assert(body[d - start - 1] == c@[d - 1]);
        d - 1
    } else {
        e
    };
    let int_part = crate::strings::copy_range(c.as_slice(), start, int_end);
    assert(int_part@ =~= (if last_dot_before(body, body.len() as int) >= 0 {
        body.subrange(0, last_dot_before(body, body.len() as int))
    } else {
        body
    }));
    if contains_char(int_part.as_slice(), ',') && !grouped_exec(int_part.as_slice()) {
        return None;
    }
    let rest = crate::strings::copy_range(c.as_slice(), int_end, c.len());
    proof {
        let dd = last_dot_before(body, body.len() as int);
        let frac = if dd >= 0 {
            body.subrange(dd, body.len() as int)
        } else {
            Seq::<char>::empty()
        };
        assert(rest@ =~= frac + c@.subrange(e as int, c@.len() as int));
    }
    if contains_char(rest.as_slice(), ',') {
        return None;
    }
    strip_commas_exec(int_part.as_slice(), &mut out);
    push_all(&mut out, rest.as_slice());
    Some(string_of(out.as_slice()))
}

// ---------------------------------------------------------------------------
// Extraction
// ---------------------------------------------------------------------------

fn extraction_error(mode: &'static str, reason: Vec<char>) -> (r: Result<String, ApplyError>)
    ensures
        is_extraction_error(r, mode@, reason@),
{
    Err(ApplyError::Extraction { mode, reason: string_of(reason.as_slice()) })
}

/// The reason given for bytes that are not UTF-8.
pub open spec fn not_utf8_reason(bytes: Seq<u8>) -> Seq<char> {
    "bytes were not UTF-8: "@ + utf8_error_text(bytes)
}

fn not_utf8_error(mode: &'static str, detail: &String) -> (r: Result<String, ApplyError>)
    ensures
        is_extraction_error(r, mode@, "bytes were not UTF-8: "@ + detail@),
{
    let mut m: Vec<char> = Vec::new();
    push_str(&mut m, "bytes were not UTF-8: ");
    push_str(&mut m, detail.as_str());
    extraction_error(mode, m)
}

/// The text of the first node that is not JSON `null`.
pub open spec fn first_non_null(nodes: Seq<(bool, Seq<char>)>) -> Option<Seq<char>>
    decreases nodes.len(),
{
    if nodes.len() == 0 {
        None
    } else if !nodes[0].0 {
        Some(nodes[0].1)
    } else {
        first_non_null(nodes.drop_first())
    }
}

/// JSONPath extraction: the first match that is not `null`, within the
/// scalar bound.
pub open spec fn spec_json_extraction(q: JsonQueryView, path: Seq<char>) -> Result<Seq<char>, Seq<char>> {
    match q {
        JsonQueryView::NotJson(d) => Err("bytes did not parse as JSON: "@ + d),
        JsonQueryView::BadPath(d) => Err("path query failed: "@ + d),
        JsonQueryView::Matched(nodes) => if nodes.len() == 0 {
            Err("path "@ + debug_str(path) + " matched no nodes"@)
        } else {
            match first_non_null(nodes) {
                Some(t) => spec_bound(t),
                None => Err("path "@ + debug_str(path) + " matched "@ + decimal(nodes.len())
                    + " node(s), all JSON null. The source publishes nulls for unavailable data; refine the path with a filter expression (e.g. `$[1][?(@.value)].value`) to skip nulls and select real values."@),
            }
        },
    }
}

/// The JSONPath extraction decided from the query's outcome.
pub fn json_path_extraction(outcome: &JsonQueryOutcome, path: &str) -> (r: Result<String, ApplyError>)
    ensures
        outcome_matches(r, spec_json_extraction(outcome@, path@), "json_path"@),
{
    match outcome {
        JsonQueryOutcome::NotJson { detail } => {
            let mut m: Vec<char> = Vec::new();
            push_str(&mut m, "bytes did not parse as JSON: ");
            push_str(&mut m, detail.as_str());
            extraction_error("json_path", m)
        },
        JsonQueryOutcome::BadPath { detail } => {
            let mut m: Vec<char> = Vec::new();
            push_str(&mut m, "path query failed: ");
            push_str(&mut m, detail.as_str());
            extraction_error("json_path", m)
        },
        JsonQueryOutcome::Matched { nodes } => {
            let quoted = debug_quoted(path);
            if nodes.len() == 0 {
                let mut m: Vec<char> = Vec::new();
                push_str(&mut m, "path ");
                push_str(&mut m, quoted.as_str());
                push_str(&mut m, " matched no nodes");
                return extraction_error("json_path", m);
            }
            let ghost dv = nodes.deep_view();
            let mut k: usize = 0;
            assert(dv.subrange(0, dv.len() as int) =~= dv);
            while k < nodes.len()
                invariant
                    k <= nodes.len(),
                    dv == nodes.deep_view(),
                    outcome@ == JsonQueryView::Matched(dv),
                    dv.len() > 0,
                    first_non_null(dv) == first_non_null(dv.subrange(k as int, dv.len() as int)),
                decreases nodes.len() - k,
            {
                assert(dv[k as int] == nodes@[k as int]@);
                if !nodes[k].is_null {
                    let t = node_text(&nodes[k]);
                    assert(dv.subrange(k as int, dv.len() as int)[0] == dv[k as int]);
                    assert(first_non_null(dv) == Some(t@));
                    return bound_extracted(t, "json_path");
                }
                assert(dv.subrange(k as int, dv.len() as int).drop_first() =~= dv.subrange(
                    k + 1,
                    dv.len() as int,
                ));
                k += 1;
            }
            let mut m: Vec<char> = Vec::new();
            push_str(&mut m, "path ");
            push_str(&mut m, quoted.as_str());
            push_str(&mut m, " matched ");
            push_decimal(&mut m, nodes.len() as u64);
            push_str(&mut m, " node(s), all JSON null. The source publishes nulls for unavailable data; refine the path with a filter expression (e.g. `$[1][?(@.value)].value`) to skip nulls and select real values.");
            extraction_error("json_path", m)
        },
    }
}

/// Extract with a JSONPath expression.
pub fn extract_json_path(bytes: &[u8], path: &str) -> (r: Result<String, ApplyError>)
    ensures
        outcome_matches(r, spec_json_extraction(json_path_query(bytes@, path@), path@), "json_path"@),
{
    let outcome = query_json_path(bytes, path);
    json_path_extraction(&outcome, path)
}

/// A selected value must not be empty, and must fit the bound.
pub open spec fn nonempty_bound(t: Seq<char>) -> Result<Seq<char>, Seq<char>> {
    if t.len() == 0 {
        Err("selection resolved to empty string"@)
    } else {
        spec_bound(t)
    }
}

/// CSS extraction from the selection's outcome: the trimmed text of the
/// first match, or the named attribute's value, non-empty and bounded.
pub open spec fn spec_css_selection(v: CssView, selector: Seq<char>, attribute: Option<Seq<char>>) -> Result<
    Seq<char>,
    Seq<char>,
> {
    match v {
        CssView::BadSelector(d) => Err("selector did not parse: "@ + d),
        CssView::NoMatch => Err("selector "@ + debug_str(selector) + " matched no elements"@),
        CssView::Found(value) => match attribute {
            None => match value {
                Some(t) => nonempty_bound(trim(t)),
                None => nonempty_bound(Seq::empty()),
            },
            Some(a) => match value {
                Some(t) => nonempty_bound(t),
                None => Err("element has no attribute "@ + debug_str(a)),
            },
        },
    }
}

/// CSS extraction over raw bytes.
pub open spec fn spec_css_extraction(bytes: Seq<u8>, selector: Seq<char>, attribute: Option<Seq<char>>) -> Result<
    Seq<char>,
    Seq<char>,
> {
    if !valid_utf8(bytes) {
        Err(not_utf8_reason(bytes))
    } else {
        match attribute {
            None => spec_css_selection(css_first_text(decode_utf8(bytes), selector), selector, attribute),
            Some(a) => spec_css_selection(css_first_attr(decode_utf8(bytes), selector, a), selector, attribute),
        }
    }
}

fn nonempty_bounded(t: String, mode: &'static str) -> (r: Result<String, ApplyError>)
    ensures
        outcome_matches(r, nonempty_bound(t@), mode@),
{
    if t.as_str().is_empty() {
        let mut m: Vec<char> = Vec::new();
        push_str(&mut m, "selection resolved to empty string");
        return extraction_error(mode, m);
    }
    bound_extracted(t, mode)
}

/// The CSS extraction decided from the selection's outcome.
pub fn css_selection_extraction(outcome: &CssOutcome, selector: &str, attribute: Option<&str>) -> (r: Result<
    String,
    ApplyError,
>)
    ensures
        outcome_matches(r, spec_css_selection(outcome@, selector@, opt_str_view(attribute)), "css_select"@),
{
    match outcome {
        CssOutcome::BadSelector { detail } => {
            let mut m: Vec<char> = Vec::new();
            push_str(&mut m, "selector did not parse: ");
            push_str(&mut m, detail.as_str());
            extraction_error("css_select", m)
        },
        CssOutcome::NoMatch => {
            let quoted = debug_quoted(selector);
            let mut m: Vec<char> = Vec::new();
            push_str(&mut m, "selector ");
            push_str(&mut m, quoted.as_str());
            push_str(&mut m, " matched no elements");
            extraction_error("css_select", m)
        },
        CssOutcome::Found { value } => match attribute {
            None => {
                let text = match value {
                    Some(t) => {
                        let c = chars_of(t.as_str());
                        trim_chars(c.as_slice())
                    },
                    None => Vec::new(),
                };
                nonempty_bounded(string_of(text.as_slice()), "css_select")
            },
            Some(a) => match value {
                Some(t) => nonempty_bounded(t.clone(), "css_select"),
                None => {
                    let quoted = debug_quoted(a);
                    let mut m: Vec<char> = Vec::new();
                    push_str(&mut m, "element has no attribute ");
                    push_str(&mut m, quoted.as_str());
                    extraction_error("css_select", m)
                },
            },
        },
    }
}

/// Extract with a CSS selector, from the text or an attribute of the
/// first matching element.
pub fn extract_css_select(bytes: &[u8], selector: &str, attribute: Option<&str>) -> (r: Result<
    String,
    ApplyError,
>)
    ensures
        outcome_matches(r, spec_css_extraction(bytes@, selector@, opt_str_view(attribute)), "css_select"@),
{
    let html = match utf8_str(bytes) {
        Ok(h) => h,
        Err(e) => {
            return not_utf8_error("css_select", &e);
        },
    };
    let outcome = match attribute {
        None => select_first_text(html.as_str(), selector),
        Some(a) => select_first_attr(html.as_str(), selector, a),
    };
    css_selection_extraction(&outcome, selector, attribute)
}

/// Regex extraction over raw bytes: capture group `group` of the first
/// match, bounded.
pub open spec fn spec_regex_extraction(bytes: Seq<u8>, pattern: Seq<char>, group: u32) -> Result<Seq<char>, Seq<char>> {
    if !valid_utf8(bytes) {
        Err(not_utf8_reason(bytes))
    } else {
        match regex_capture(decode_utf8(bytes), pattern, group as nat) {
            RegexView::BadPattern(d) => Err("pattern did not compile: "@ + d),
            RegexView::NoMatch => Err("pattern matched nothing"@),
            RegexView::NoGroup => Err("capture group "@ + decimal(group as nat) + " not present in match"@),
            RegexView::Captured(t) => spec_bound(t),
        }
    }
}

/// Extract a regex capture group.
pub fn extract_regex(bytes: &[u8], pattern: &str, group: u32) -> (r: Result<String, ApplyError>)
    ensures
        outcome_matches(r, spec_regex_extraction(bytes@, pattern@, group), "regex_capture"@),
{
    let text = match utf8_str(bytes) {
        Ok(t) => t,
        Err(e) => {
            return not_utf8_error("regex_capture", &e);
        },
    };
    match capture_group(text.as_str(), pattern, group as usize) {
        RegexOutcome::BadPattern { detail } => {
            let mut m: Vec<char> = Vec::new();
            push_str(&mut m, "pattern did not compile: ");
            push_str(&mut m, detail.as_str());
            extraction_error("regex_capture", m)
        },
        RegexOutcome::NoMatch => {
            let mut m: Vec<char> = Vec::new();
            push_str(&mut m, "pattern matched nothing");
            extraction_error("regex_capture", m)
        },
        RegexOutcome::NoGroup => {
            let mut m: Vec<char> = Vec::new();
            push_str(&mut m, "capture group ");
            push_decimal(&mut m, group as u64);
            push_str(&mut m, " not present in match");
            extraction_error("regex_capture", m)
        },
        RegexOutcome::Captured { text } => bound_extracted(text, "regex_capture"),
    }
}

// ---------------------------------------------------------------------------
// CSV cells
// ---------------------------------------------------------------------------

/// The filter's column and the value it must hold, for either kind of
/// row filter.
pub open spec fn filter_pair(f: Option<RowFilter>) -> Option<(Seq<char>, Seq<char>)> {
    match f {
        None => None,
        Some(RowFilter::Equals { column, value }) => Some((column@, value@)),
        Some(RowFilter::LabeledAs { label_column, label }) => Some((label_column@, label@)),
    }
}

/// [`filter_pair`] of a borrowed filter.
pub open spec fn filter_pair_ref(f: Option<&RowFilter>) -> Option<(Seq<char>, Seq<char>)> {
    match f {
        None => None,
        Some(rf) => filter_pair(Some(*rf)),
    }
}

/// A row is selected when there is no filter, or when it has a cell at
/// the filter column holding the filter value.
pub open spec fn row_selected(cells: Seq<Seq<char>>, sel: Option<(int, Seq<char>)>) -> bool {
    match sel {
        None => true,
        Some((i, v)) => 0 <= i < cells.len() && cells[i] == v,
    }
}

/// The cells at column `ci` of the selected rows, in order; the first
/// unreadable row, or a selected row too short for `ci`, is an error.
pub open spec fn csv_scan(rows: Seq<Result<Seq<Seq<char>>, Seq<char>>>, ci: int, sel: Option<(int, Seq<char>)>) -> Result<
    Seq<Seq<char>>,
    Seq<char>,
>
    decreases rows.len(),
{
    if rows.len() == 0 {
        Ok(Seq::empty())
    } else {
        match rows[0] {
            Err(d) => Err("row parse error: "@ + d),
            Ok(cells) => if row_selected(cells, sel) && ci >= cells.len() {
                Err("row has no cell at index "@ + decimal(ci as nat))
            } else {
                match csv_scan(rows.drop_first(), ci, sel) {
                    Err(e) => Err(e),
                    Ok(rest) => Ok(
                        if row_selected(cells, sel) {
                            seq![cells[ci]] + rest
                        } else {
                            rest
                        },
                    ),
                }
            },
        }
    }
}

/// Exactly one selected row is required.
pub open spec fn csv_pick(m: Result<Seq<Seq<char>>, Seq<char>>) -> Result<Seq<char>, Seq<char>> {
    match m {
        Err(e) => Err(e),
        Ok(cells) => if cells.len() == 0 {
            Err("no rows matched the filter"@)
        } else if cells.len() == 1 {
            spec_bound(cells[0])
        } else {
            Err("ambiguous: "@ + decimal(cells.len())
                + " rows matched the filter (a recipe must pick exactly one row; tighten the filter or change the recipe to extract multi-value, which is a separate extraction mode)"@)
        },
    }
}

/// The `{:?}` renderings of `items`, separated by `, `.
pub open spec fn debug_items(items: Seq<Seq<char>>) -> Seq<char>
    decreases items.len(),
{
    if items.len() == 0 {
        Seq::empty()
    } else if items.len() == 1 {
        debug_str(items[0])
    } else {
        debug_items(items.drop_last()) + ", "@ + debug_str(items.last())
    }
}

/// The `{:?}` rendering of a list of string slices.
pub open spec fn debug_list(items: Seq<Seq<char>>) -> Seq<char> {
    "["@ + debug_items(items) + "]"@
}

/// CSV extraction from the reader's outcome: the named column of the one
/// selected row, bounded.
pub open spec fn spec_csv_table_extraction(t: CsvView, column: Seq<char>, filter: Option<(Seq<char>, Seq<char>)>) -> Result<
    Seq<char>,
    Seq<char>,
> {
    match t {
        CsvView::BadHeaders(d) => Err("could not read headers: "@ + d),
        CsvView::Table(headers, rows) => match headers.index_of_first(column) {
            None => Err("column "@ + debug_str(column) + " not in headers "@ + debug_list(headers)),
            Some(ci) => match filter {
                None => csv_pick(csv_scan(rows, ci, None)),
                Some((fc, v)) => match headers.index_of_first(fc) {
                    None => Err("filter column "@ + debug_str(fc) + " not in headers"@),
                    Some(fi) => csv_pick(csv_scan(rows, ci, Some((fi, v)))),
                },
            },
        },
    }
}

/// Index of the first item equal to `name`.
fn position(items: &Vec<String>, name: &str) -> (r: Option<usize>)
    ensures
        match r {
            Some(i) => items.deep_view().index_of_first(name@) == Some(i as int),
            None => items.deep_view().index_of_first(name@) is None,
        },
{
    let ghost dv = items.deep_view();
    proof {
        dv.index_of_first_ensures(name@);
    }
    let mut k: usize = 0;
    while k < items.len()
        invariant
            k <= items.len(),
            dv == items.deep_view(),
            forall|j: int| 0 <= j < k ==> dv[j] != name@,
        decreases items.len() - k,
    {
        if str_eq(items[k].as_str(), name) {
            proof {
                dv.index_of_first_ensures(name@);
                assert(dv[k as int] == name@);
                assert(dv.contains(name@));
                let idx = dv.index_of_first(name@).unwrap();
                if idx < k {
                    assert(dv[idx] != name@);
                }
            }
            return Some(k);
        }
        k += 1;
    }
    proof {
        dv.index_of_first_ensures(name@);
        if dv.contains(name@) {
            let j = choose|j: int| 0 <= j < dv.len() && dv[j] == name@;
            assert(dv[j] != name@);
        }
    }
    None
}

fn push_debug_list(out: &mut Vec<char>, items: &Vec<String>)
    ensures
        final(out)@ == old(out)@ + debug_list(items.deep_view()),
{
    let ghost dv = items.deep_view();
    push_str(out, "[");
    let mut k: usize = 0;
    assert(dv.take(0) =~= Seq::<Seq<char>>::empty());
    while k < items.len()
        invariant
            k <= items.len(),
            dv == items.deep_view(),
            out@ == old(out)@ + "["@ + debug_items(dv.take(k as int)),
        decreases items.len() - k,
    {
        let ghost before = out@;
        if k > 0 {
            push_str(out, ", ");
        }
        let q = debug_quoted(items[k].as_str());
        push_str(out, q.as_str());
        proof {
            let t = dv.take(k + 1);
            assert(t.drop_last() =~= dv.take(k as int));
            assert(t.last() == dv[k as int]);
            if k == 0 {
                assert(debug_items(dv.take(0)) =~= Seq::<char>::empty());
                assert(out@ =~= old(out)@ + "["@ + debug_items(t));
            } else {
                assert(out@ =~= old(out)@ + "["@ + debug_items(t));
            }
        }
        k += 1;
    }
    assert(dv.take(items.len() as int) =~= dv);
    push_str(out, "]");
}

/// `acc` followed by the outcome of the rest of a scan.
pub open spec fn prepend(acc: Seq<Seq<char>>, rest: Result<Seq<Seq<char>>, Seq<char>>) -> Result<
    Seq<Seq<char>>,
    Seq<char>,
> {
    match rest {
        Err(e) => Err(e),
        Ok(r) => Ok(acc + r),
    }
}

pub open spec fn sel_view(sel: Option<(usize, String)>) -> Option<(int, Seq<char>)> {
    match sel {
        None => None,
        Some((i, v)) => Some((i as int, v@)),
    }
}

fn csv_scan_exec(rows: &Vec<CsvRow>, ci: usize, sel: &Option<(usize, String)>) -> (r: Result<Vec<String>, Vec<char>>)
    ensures
        match r {
            Ok(m) => csv_scan(rows.deep_view(), ci as int, sel_view(*sel)) == Ok::<Seq<Seq<char>>, Seq<char>>(
                m.deep_view(),
            ),
            Err(e) => csv_scan(rows.deep_view(), ci as int, sel_view(*sel)) == Err::<Seq<Seq<char>>, Seq<char>>(e@),
        },
{
    let ghost rv = rows.deep_view();
    let ghost ssel = sel_view(*sel);
    let mut matching: Vec<String> = Vec::new();
    let mut k: usize = 0;
    assert(rv.subrange(0, rv.len() as int) =~= rv);
    assert(matching.deep_view() + Seq::<Seq<char>>::empty() =~= Seq::<Seq<char>>::empty());
    assert(forall|x: Seq<Seq<char>>| matching.deep_view() + x =~= x);
    while k < rows.len()
        invariant
            k <= rows.len(),
            rv == rows.deep_view(),
            ssel == sel_view(*sel),
            csv_scan(rv, ci as int, ssel) == prepend(
                matching.deep_view(),
                csv_scan(rv.subrange(k as int, rv.len() as int), ci as int, ssel),
            ),
        decreases rows.len() - k,
    {
        let ghost sub = rv.subrange(k as int, rv.len() as int);
        assert(sub[0] == rv[k as int]);
        assert(sub.drop_first() =~= rv.subrange(k + 1, rv.len() as int));
        match &rows[k] {
            CsvRow::Bad { detail } => {
                let mut m: Vec<char> = Vec::new();
                push_str(&mut m, "row parse error: ");
                push_str(&mut m, detail.as_str());
                return Err(m);
            },
            CsvRow::Fields { cells } => {
                let selected = match sel {
                    None => true,
                    Some((fi, v)) => *fi < cells.len() && str_eq(cells[*fi].as_str(), v.as_str()),
                };
                assert(selected == row_selected(cells.deep_view(), ssel));
                if selected {
                    if ci >= cells.len() {
                        let mut m: Vec<char> = Vec::new();
                        push_str(&mut m, "row has no cell at index ");
                        push_decimal(&mut m, ci as u64);
                        return Err(m);
                    }
                    let ghost before = matching.deep_view();
                    matching.push(cells[ci].clone());
                    proof {
                        assert(matching.deep_view() =~= before.push(cells.deep_view()[ci as int]));
                        match csv_scan(rv.subrange(k + 1, rv.len() as int), ci as int, ssel) {
                            Ok(rest) => {
                                assert(before + (seq![cells.deep_view()[ci as int]] + rest)
                                    =~= matching.deep_view() + rest);
                            },
                            Err(_) => {},
                        }
                    }
                }
            },
        }
        k += 1;
    }
    proof {
        assert(rv.subrange(k as int, rv.len() as int) =~= Seq::<Result<Seq<Seq<char>>, Seq<char>>>::empty());
        assert(matching.deep_view() + Seq::<Seq<char>>::empty() =~= matching.deep_view());
    }
    Ok(matching)
}

/// The CSV extraction decided from the reader's outcome.
pub fn csv_table_extraction(table: &CsvOutcome, column: &str, row_filter: Option<&RowFilter>) -> (r: Result<
    String,
    ApplyError,
>)
    ensures
        outcome_matches(r, spec_csv_table_extraction(table@, column@, filter_pair_ref(row_filter)), "csv_cell"@),
{
    match table {
        CsvOutcome::BadHeaders { detail } => {
            let mut m: Vec<char> = Vec::new();
            push_str(&mut m, "could not read headers: ");
            push_str(&mut m, detail.as_str());
            extraction_error("csv_cell", m)
        },
        CsvOutcome::Table { headers, rows } => {
            let ci = match position(headers, column) {
                Some(i) => i,
                None => {
                    let q = debug_quoted(column);
                    let mut m: Vec<char> = Vec::new();
                    push_str(&mut m, "column ");
                    push_str(&mut m, q.as_str());
                    push_str(&mut m, " not in headers ");
                    push_debug_list(&mut m, headers);
                    return extraction_error("csv_cell", m);
                },
            };
            let sel: Option<(usize, String)> = match row_filter {
                None => None,
                Some(f) => {
                    let (fc, v) = match f {
                        RowFilter::Equals { column, value } => (column, value),
                        RowFilter::LabeledAs { label_column, label } => (label_column, label),
                    };
                    match position(headers, fc.as_str()) {
                        Some(fi) => Some((fi, v.clone())),
                        None => {
                            let q = debug_quoted(fc.as_str());
                            let mut m: Vec<char> = Vec::new();
                            push_str(&mut m, "filter column ");
                            push_str(&mut m, q.as_str());
                            push_str(&mut m, " not in headers");
                            return extraction_error("csv_cell", m);
                        },
                    }
                },
            };
            let matching = match csv_scan_exec(rows, ci, &sel) {
                Ok(m) => m,
                Err(m) => {
                    return extraction_error("csv_cell", m);
                },
            };
            if matching.len() == 0 {
                let mut m: Vec<char> = Vec::new();
                push_str(&mut m, "no rows matched the filter");
                extraction_error("csv_cell", m)
            } else if matching.len() == 1 {
                bound_extracted(matching[0].clone(), "csv_cell")
            } else {
                let mut m: Vec<char> = Vec::new();
                push_str(&mut m, "ambiguous: ");
                push_decimal(&mut m, matching.len() as u64);
                push_str(&mut m, " rows matched the filter (a recipe must pick exactly one row; tighten the filter or change the recipe to extract multi-value, which is a separate extraction mode)");
                extraction_error("csv_cell", m)
            }
        },
    }
}

/// Extract one CSV cell by column, with an optional row filter.
pub fn extract_csv_cell(bytes: &[u8], column: &str, row_filter: Option<&RowFilter>) -> (r: Result<
    String,
    ApplyError,
>)
    ensures
        outcome_matches(
            r,
            spec_csv_table_extraction(csv_table(bytes@), column@, filter_pair_ref(row_filter)),
            "csv_cell"@,
        ),
{
    let table = read_csv(bytes);
    csv_table_extraction(&table, column, row_filter)
}

// ---------------------------------------------------------------------------
// PDF table cells
// ---------------------------------------------------------------------------

pub open spec fn pages_view(p: Result<Vec<String>, String>) -> Result<Seq<Seq<char>>, Seq<char>> {
    match p {
        Ok(v) => Ok(v.deep_view()),
        Err(e) => Err(e@),
    }
}

/// `n - 1`, or 0 for 0.
pub open spec fn saturating_pred(n: nat) -> nat {
    if n == 0 {
        0
    } else {
        (n - 1) as nat
    }
}

/// PDF table extraction: page `page` (1-indexed), then the detected
/// table, row and column (0-indexed), trimmed, non-empty and bounded.
pub open spec fn spec_pdf_table(pages: Result<Seq<Seq<char>>, Seq<char>>, page: u32, ti: u32, row: u32, col: u32) -> Result<
    Seq<char>,
    Seq<char>,
> {
    match pages {
        Err(e) => Err("pdf parse failed: "@ + e),
        Ok(ps) => if page == 0 {
            Err("page must be 1-indexed; 0 is not a valid PDF page"@)
        } else if page > ps.len() {
            Err("page "@ + decimal(page as nat) + " out of range (PDF has "@ + decimal(ps.len()) + " pages)"@)
        } else {
            let tables = spec_detect_pdf_tables(ps[page - 1]);
            if ti >= tables.len() {
                Err("table_index "@ + decimal(ti as nat) + " not found on page "@ + decimal(page as nat) + " ("@
                    + decimal(tables.len()) + " tables detected; use table_index 0.."@ + decimal(
                    saturating_pred(tables.len()),
                ) + ")"@)
            } else if row >= tables[ti as int].len() {
                Err("row "@ + decimal(row as nat) + " out of range on page "@ + decimal(page as nat) + ", table "@
                    + decimal(ti as nat) + " (table has "@ + decimal(tables[ti as int].len()) + " rows)"@)
            } else if col >= tables[ti as int][row as int].len() {
                Err("col "@ + decimal(col as nat) + " out of range at page "@ + decimal(page as nat) + ", table "@
                    + decimal(ti as nat) + ", row "@ + decimal(row as nat) + " (row has "@ + decimal(
                    tables[ti as int][row as int].len(),
                ) + " cells)"@)
            } else if trim(tables[ti as int][row as int][col as int]).len() == 0 {
                Err("cell at page "@ + decimal(page as nat) + ", table "@ + decimal(ti as nat) + ", row "@ + decimal(
                    row as nat,
                ) + ", col "@ + decimal(col as nat) + " is empty after trimming"@)
            } else {
                spec_bound(trim(tables[ti as int][row as int][col as int]))
            }
        },
    }
}

/// Extract one cell of a table detected on a PDF page, given the text
/// of each page as the PDF reader gave it (or its error).
pub fn extract_pdf_table(pages: &Result<Vec<String>, String>, page: u32, table_index: u32, row: u32, col: u32) -> (r:
    Result<String, ApplyError>)
    ensures
        outcome_matches(r, spec_pdf_table(pages_view(*pages), page, table_index, row, col), "pdf_table"@),
{
    let ps = match pages {
        Err(e) => {
            let mut m: Vec<char> = Vec::new();
            push_str(&mut m, "pdf parse failed: ");
            push_str(&mut m, e.as_str());
            return extraction_error("pdf_table", m);
        },
        Ok(ps) => ps,
    };
    if page == 0 {
        let mut m: Vec<char> = Vec::new();
        push_str(&mut m, "page must be 1-indexed; 0 is not a valid PDF page");
        return extraction_error("pdf_table", m);
    }
    if page as usize > ps.len() {
        let mut m: Vec<char> = Vec::new();
        push_str(&mut m, "page ");
        push_decimal(&mut m, page as u64);
        push_str(&mut m, " out of range (PDF has ");
        push_decimal(&mut m, ps.len() as u64);
        push_str(&mut m, " pages)");
        return extraction_error("pdf_table", m);
    }
    let tables = detect_pdf_tables(ps[page as usize - 1].as_str());
    if table_index as usize >= tables.len() {
        let mut m: Vec<char> = Vec::new();
        push_str(&mut m, "table_index ");
        push_decimal(&mut m, table_index as u64);
        push_str(&mut m, " not found on page ");
        push_decimal(&mut m, page as u64);
        push_str(&mut m, " (");
        push_decimal(&mut m, tables.len() as u64);
        push_str(&mut m, " tables detected; use table_index 0..");
        let last: usize = if tables.len() == 0 {
            0
        } else {
            tables.len() - 1
        };
        push_decimal(&mut m, last as u64);
        push_str(&mut m, ")");
        return extraction_error("pdf_table", m);
    }
    let table = &tables[table_index as usize];
    if row as usize >= table.len() {
        let mut m: Vec<char> = Vec::new();
        push_str(&mut m, "row ");
        push_decimal(&mut m, row as u64);
        push_str(&mut m, " out of range on page ");
        push_decimal(&mut m, page as u64);
        push_str(&mut m, ", table ");
        push_decimal(&mut m, table_index as u64);
        push_str(&mut m, " (table has ");
        push_decimal(&mut m, table.len() as u64);
        push_str(&mut m, " rows)");
        return extraction_error("pdf_table", m);
    }
    let row_data = &table[row as usize];
    if col as usize >= row_data.len() {
        let mut m: Vec<char> = Vec::new();
        push_str(&mut m, "col ");
        push_decimal(&mut m, col as u64);
        push_str(&mut m, " out of range at page ");
        push_decimal(&mut m, page as u64);
        push_str(&mut m, ", table ");
        push_decimal(&mut m, table_index as u64);
        push_str(&mut m, ", row ");
        push_decimal(&mut m, row as u64);
        push_str(&mut m, " (row has ");
        push_decimal(&mut m, row_data.len() as u64);
        push_str(&mut m, " cells)");
        return extraction_error("pdf_table", m);
    }
    let cell = chars_of(row_data[col as usize].as_str());
    let trimmed = trim_chars(cell.as_slice());
    if trimmed.len() == 0 {
        let mut m: Vec<char> = Vec::new();
        push_str(&mut m, "cell at page ");
        push_decimal(&mut m, page as u64);
        push_str(&mut m, ", table ");
        push_decimal(&mut m, table_index as u64);
        push_str(&mut m, ", row ");
        push_decimal(&mut m, row as u64);
        push_str(&mut m, ", col ");
        push_decimal(&mut m, col as u64);
        push_str(&mut m, " is empty after trimming");
        return extraction_error("pdf_table", m);
    }
    bound_extracted(string_of(trimmed.as_slice()), "pdf_table")
}

// ---------------------------------------------------------------------------
// Dispatch
// ---------------------------------------------------------------------------

/// What extracting with `spec` from `bytes` gives, over the named
/// outcomes of the parsing crates.
pub open spec fn spec_extract(
    spec: ExtractionSpec,
    bytes: Seq<u8>,
    pdf_text: Result<Seq<Seq<char>>, Seq<char>>,
) -> Result<Seq<char>, Seq<char>> {
    match spec {
        ExtractionSpec::JsonPath { path } => spec_json_extraction(json_path_query(bytes, path@), path@),
        ExtractionSpec::CssSelect { selector, attribute } => spec_css_extraction(
            bytes,
            selector@,
            opt_string_view(attribute),
        ),
        ExtractionSpec::CsvCell { column, row_filter } => spec_csv_table_extraction(
            csv_table(bytes),
            column@,
            filter_pair(row_filter),
        ),
        ExtractionSpec::PdfTable { page, table_index, row, col } => spec_pdf_table(
            pdf_text,
            page,
            table_index,
            row,
            col,
        ),
        ExtractionSpec::RegexCapture { pattern, group } => spec_regex_extraction(bytes, pattern@, group),
    }
}

/// Extract one scalar value from fetched bytes with the recipe's
/// extraction. `pdf_text` is the per-page text of the same bytes as the
/// PDF reader gave it, or its error; only the `pdf_table` mode reads it.
/// Every failure is an `Extraction` error in the spec's mode.
pub fn extract(spec: &ExtractionSpec, bytes: &[u8], pdf_text: &Result<Vec<String>, String>) -> (r: Result<String, ApplyError>)
    ensures
        outcome_matches(r, spec_extract(*spec, bytes@, pages_view(*pdf_text)), spec_mode_name(*spec)),
{
    match spec {
        ExtractionSpec::JsonPath { path } => extract_json_path(bytes, path.as_str()),
        ExtractionSpec::CssSelect { selector, attribute } => extract_css_select(
            bytes,
            selector.as_str(),
            opt_as_str(attribute),
        ),
        ExtractionSpec::CsvCell { column, row_filter } => extract_csv_cell(
            bytes,
            column.as_str(),
            row_filter.as_ref(),
        ),
        ExtractionSpec::PdfTable { page, table_index, row, col } => extract_pdf_table(
            pdf_text,
            *page,
            *table_index,
            *row,
            *col,
        ),
        ExtractionSpec::RegexCapture { pattern, group } => extract_regex(bytes, pattern.as_str(), *group),
    }
}

// ---------------------------------------------------------------------------
// Structural validation against prefetched bytes
// ---------------------------------------------------------------------------

/// What the structural validator decides: the recipe would produce a
/// value, or the error it reports (the mode and the reason).
pub enum ValidationVerdict {
    Valid,
    Extraction(Seq<char>, Seq<char>),
    NotImplemented(Seq<char>, Seq<char>),
}

/// `r` is the verdict `v`.
pub open spec fn verdict_matches(r: Result<(), ApplyError>, v: ValidationVerdict) -> bool {
    match v {
        ValidationVerdict::Valid => r is Ok,
        ValidationVerdict::Extraction(mode, reason) => is_extraction_error(r, mode, reason),
        ValidationVerdict::NotImplemented(mode, reason) => match r {
            Err(ApplyError::NotImplemented { mode: m, reason: x }) => m@ == mode && x@ == reason,
            _ => false,
        },
    }
}

/// Some scope holds at least one inner match.
pub open spec fn some_scope_hit(counts: Seq<usize>) -> bool {
    exists|k: int| 0 <= k < counts.len() && #[trigger] counts[k] > 0
}

/// The inner query succeeded on this scope with a non-null match.
pub open spec fn scope_non_null(scope: Option<Seq<bool>>) -> bool {
    match scope {
        Some(flags) => exists|j: int| 0 <= j < flags.len() && !#[trigger] flags[j],
        None => false,
    }
}

/// Some scope's inner query succeeded with a non-null match.
pub open spec fn some_scope_non_null(scopes: Seq<Option<Seq<bool>>>) -> bool {
    exists|k: int| 0 <= k < scopes.len() && #[trigger] scope_non_null(scopes[k])
}

/// The CSS iterator pair is usable: the bytes are HTML text, both
/// selectors parse, the outer one matches, and the inner one matches
/// within at least one outer match.
pub open spec fn spec_css_iterator_validation(bytes: Seq<u8>, outer: Seq<char>, inner: Seq<char>) -> ValidationVerdict {
    if !valid_utf8(bytes) {
        ValidationVerdict::Extraction("css_select"@, not_utf8_reason(bytes))
    } else {
        match css_scopes(decode_utf8(bytes), outer, inner) {
            CssScopesView::BadOuter(d) => ValidationVerdict::Extraction("css_select"@, "iterator selector did not parse: "@ + d),
            CssScopesView::BadInner(d) => ValidationVerdict::Extraction("css_select"@, "inner selector did not parse: "@ + d),
            CssScopesView::Scopes(counts) => if counts.len() == 0 {
                ValidationVerdict::Extraction("css_select"@, "iterator selector "@ + debug_str(outer) + " matched no elements"@)
            } else if !some_scope_hit(counts) {
                ValidationVerdict::Extraction(
                    "css_select"@,
                    "inner selector "@ + debug_str(inner) + " matched no elements within any of the "@ + decimal(counts.len())
                        + " iterator matches \u{2014} the iterator selector found cards but none of them contained the value the inner selector addresses. Likely cause: the inner selector is hallucinated against markup the prefetch did not return."@,
                )
            } else {
                ValidationVerdict::Valid
            },
        }
    }
}

/// The JSON iterator pair is usable: the bytes are JSON, the outer path
/// queries and matches, and within at least one outer match the inner
/// path queries and matches a non-null value.
pub open spec fn spec_json_iterator_validation(bytes: Seq<u8>, outer: Seq<char>, inner: Seq<char>) -> ValidationVerdict {
    match json_scopes(bytes, outer, inner) {
        JsonScopesView::NotJson(d) => ValidationVerdict::Extraction("json_path"@, "bytes did not parse as JSON: "@ + d),
        JsonScopesView::BadOuter(d) => ValidationVerdict::Extraction("json_path"@, "iterator path query failed: "@ + d),
        JsonScopesView::Scopes(scopes) => if scopes.len() == 0 {
            ValidationVerdict::Extraction(
                "json_path"@,
                "iterator path "@ + debug_str(outer)
                    + " matched no nodes (the source may have changed shape, or the path is targeting the wrong array)"@,
            )
        } else if !some_scope_non_null(scopes) {
            ValidationVerdict::Extraction(
                "json_path"@,
                "inner path "@ + debug_str(inner) + " matched no nodes within any of the "@ + decimal(scopes.len())
                    + " iterator matches \u{2014} the iterator path found elements but none contained a non-null value the inner path addresses. Likely cause: the inner path is hallucinated against shape the prefetch did not return."@,
            )
        } else {
            ValidationVerdict::Valid
        },
    }
}

/// The reason an unsupported iterator pairing is refused.
pub open spec fn unsupported_pair_reason(iter: ExtractionSpec, inner: ExtractionSpec) -> Seq<char> {
    "iterator runtime is wired for css_select \u{d7} css_select (ADR 0016 Phase 1) and json_path \u{d7} json_path (ADR 0019 Phase 2A). Got iter="@ + spec_mode_name(iter)
        + ", inner="@ + spec_mode_name(inner)
        + ". Other modes (csv_cell, pdf_table, regex_capture) are tracked for Phase 2B; until then, iterator-bearing recipes against listing-shaped sources of those modes should decline at authoring."@
}

/// What the structural validator decides for `recipe` against `bytes`
/// (`pdf_text` being the bytes' per-page PDF text or its error): a scalar
/// recipe must extract a value; an iterator recipe must be a supported
/// pairing whose outer extraction matches and whose inner extraction
/// matches within some outer match.
pub open spec fn spec_structural_validation(
    recipe: FetchRecipe,
    bytes: Seq<u8>,
    pdf_text: Result<Seq<Seq<char>>, Seq<char>>,
) -> ValidationVerdict {
    match recipe.iterator {
        None => match spec_extract(recipe.extraction, bytes, pdf_text) {
            Ok(_) => ValidationVerdict::Valid,
            Err(reason) => ValidationVerdict::Extraction(spec_mode_name(recipe.extraction), reason),
        },
        Some(iter) => match (iter, recipe.extraction) {
            (ExtractionSpec::CssSelect { selector: o, .. }, ExtractionSpec::CssSelect { selector: i, .. }) => spec_css_iterator_validation(bytes, o@, i@),
            (ExtractionSpec::JsonPath { path: o }, ExtractionSpec::JsonPath { path: i }) => spec_json_iterator_validation(bytes, o@, i@),
            (it, inner) => ValidationVerdict::NotImplemented("iterator"@, unsupported_pair_reason(it, inner)),
        },
    }
}

fn extraction_failure(mode: &'static str, reason: Vec<char>) -> (r: Result<(), ApplyError>)
    ensures
        is_extraction_error(r, mode@, reason@),
{
    Err(ApplyError::Extraction { mode, reason: string_of(reason.as_slice()) })
}

/// Check a CSS iterator pair against prefetched bytes.
pub fn validate_css_iterator(bytes: &[u8], iter_selector: &str, inner_selector: &str) -> (r: Result<(), ApplyError>)
    ensures
        verdict_matches(r, spec_css_iterator_validation(bytes@, iter_selector@, inner_selector@)),
{
    let html = match utf8_str(bytes) {
        Ok(h) => h,
        Err(e) => {
            let mut m: Vec<char> = Vec::new();
            push_str(&mut m, "bytes were not UTF-8: ");
            push_str(&mut m, e.as_str());
            return extraction_failure("css_select", m);
        },
    };
    match select_scoped(html.as_str(), iter_selector, inner_selector) {
        CssScopesOutcome::BadOuter { detail } => {
            let mut m: Vec<char> = Vec::new();
            push_str(&mut m, "iterator selector did not parse: ");
            push_str(&mut m, detail.as_str());
            extraction_failure("css_select", m)
        },
        CssScopesOutcome::BadInner { detail } => {
            let mut m: Vec<char> = Vec::new();
            push_str(&mut m, "inner selector did not parse: ");
            push_str(&mut m, detail.as_str());
            extraction_failure("css_select", m)
        },
        CssScopesOutcome::Scopes { inner_counts } => {
            if inner_counts.len() == 0 {
                let mut m: Vec<char> = Vec::new();
                push_str(&mut m, "iterator selector ");
                push_str(&mut m, debug_quoted(iter_selector).as_str());
                push_str(&mut m, " matched no elements");
                return extraction_failure("css_select", m);
            }
            let mut k: usize = 0;
            while k < inner_counts.len()
                invariant
                    k <= inner_counts.len(),
                    valid_utf8(bytes@),
                    css_scopes(decode_utf8(bytes@), iter_selector@, inner_selector@) == CssScopesView::Scopes(inner_counts@),
                    inner_counts@.len() > 0,
                    forall|j: int| 0 <= j < k ==> inner_counts@[j] == 0,
                decreases inner_counts.len() - k,
            {
                if inner_counts[k] > 0 {
                    assert(inner_counts@[k as int] > 0);
                    assert(some_scope_hit(inner_counts@));
                    return Ok(());
                }
                k += 1;
            }
            let mut m: Vec<char> = Vec::new();
            push_str(&mut m, "inner selector ");
            push_str(&mut m, debug_quoted(inner_selector).as_str());
            push_str(&mut m, " matched no elements within any of the ");
            push_decimal(&mut m, inner_counts.len() as u64);
            push_str(&mut m, " iterator matches \u{2014} the iterator selector found cards but none of them contained the value the inner selector addresses. Likely cause: the inner selector is hallucinated against markup the prefetch did not return.");
            extraction_failure("css_select", m)
        },
    }
}

fn has_non_null(flags: &Vec<bool>) -> (r: bool)
    ensures
        r == exists|j: int| 0 <= j < flags@.len() && !#[trigger] flags@[j],
{
    let mut j: usize = 0;
    while j < flags.len()
        invariant
            j <= flags.len(),
            forall|q: int| 0 <= q < j ==> flags@[q],
        decreases flags.len() - j,
    {
        if !flags[j] {
            return true;
        }
        j += 1;
    }
    false
}

/// Check a JSON iterator pair against prefetched bytes.
pub fn validate_json_iterator(bytes: &[u8], iter_path: &str, inner_path: &str) -> (r: Result<(), ApplyError>)
    ensures
        verdict_matches(r, spec_json_iterator_validation(bytes@, iter_path@, inner_path@)),
{
    match query_json_scoped(bytes, iter_path, inner_path) {
        JsonScopesOutcome::NotJson { detail } => {
            let mut m: Vec<char> = Vec::new();
            push_str(&mut m, "bytes did not parse as JSON: ");
            push_str(&mut m, detail.as_str());
            extraction_failure("json_path", m)
        },
        JsonScopesOutcome::BadOuter { detail } => {
            let mut m: Vec<char> = Vec::new();
            push_str(&mut m, "iterator path query failed: ");
            push_str(&mut m, detail.as_str());
            extraction_failure("json_path", m)
        },
        JsonScopesOutcome::Scopes { inner } => {
            let ghost scopes = inner.deep_view();
            if inner.len() == 0 {
                let mut m: Vec<char> = Vec::new();
                push_str(&mut m, "iterator path ");
                push_str(&mut m, debug_quoted(iter_path).as_str());
                push_str(&mut m, " matched no nodes (the source may have changed shape, or the path is targeting the wrong array)");
                return extraction_failure("json_path", m);
            }
            let mut k: usize = 0;
            while k < inner.len()
                invariant
                    k <= inner.len(),
                    scopes == inner.deep_view(),
                    json_scopes(bytes@, iter_path@, inner_path@) == JsonScopesView::Scopes(scopes),
                    scopes.len() > 0,
                    forall|q: int| 0 <= q < k ==> !#[trigger] scope_non_null(scopes[q]),
                decreases inner.len() - k,
            {
                match &inner[k] {
                    Some(flags) => {
                        assert(flags.deep_view() =~= flags@);
                        assert(scopes[k as int] == Some(flags@));
                        if has_non_null(flags) {
                            proof {
                                let w = choose|w: int| 0 <= w < flags@.len() && !#[trigger] flags@[w];
                                let f = scopes[k as int]->0;
                                assert(f == flags@);
                                assert(!f[w]);
                                assert(scope_non_null(scopes[k as int]));
                            }
                            assert(some_scope_non_null(scopes));
                            return Ok(());
                        }
                    },
                    None => {
                        assert(scopes[k as int] is None);
                        assert(!scope_non_null(scopes[k as int]));
                    },
                }
                k += 1;
            }
            let mut m: Vec<char> = Vec::new();
            push_str(&mut m, "inner path ");
            push_str(&mut m, debug_quoted(inner_path).as_str());
            push_str(&mut m, " matched no nodes within any of the ");
            push_decimal(&mut m, inner.len() as u64);
            push_str(&mut m, " iterator matches \u{2014} the iterator path found elements but none contained a non-null value the inner path addresses. Likely cause: the inner path is hallucinated against shape the prefetch did not return.");
            extraction_failure("json_path", m)
        },
    }
}

/// Structural validation of a recipe against prefetched bytes: a scalar
/// recipe must extract a value (the runtime's own dispatch); an iterator
/// recipe must be a supported pairing whose outer extraction matches and
/// whose inner extraction matches within at least one outer match.
/// `pdf_text` is the bytes' per-page PDF text, or its error.
pub fn validate_recipe_against_bytes(recipe: &FetchRecipe, bytes: &[u8], pdf_text: &Result<Vec<String>, String>) -> (r:
    Result<(), ApplyError>)
    ensures
        verdict_matches(r, spec_structural_validation(*recipe, bytes@, pages_view(*pdf_text))),
{
    match &recipe.iterator {
        None => match extract(&recipe.extraction, bytes, pdf_text) {
            Ok(_) => Ok(()),
            Err(e) => Err(e),
        },
        Some(iter) => match (iter, &recipe.extraction) {
            (ExtractionSpec::CssSelect { selector: o, .. }, ExtractionSpec::CssSelect { selector: i, .. }) => validate_css_iterator(
                bytes,
                o.as_str(),
                i.as_str(),
            ),
            (ExtractionSpec::JsonPath { path: o }, ExtractionSpec::JsonPath { path: i }) => validate_json_iterator(
                bytes,
                o.as_str(),
                i.as_str(),
            ),
            (it, inner) => {
                let mut m: Vec<char> = Vec::new();
                push_str(&mut m, "iterator runtime is wired for css_select \u{d7} css_select (ADR 0016 Phase 1) and json_path \u{d7} json_path (ADR 0019 Phase 2A). Got iter=");
                push_str(&mut m, mode_name(it));
                push_str(&mut m, ", inner=");
                push_str(&mut m, mode_name(inner));
                push_str(&mut m, ". Other modes (csv_cell, pdf_table, regex_capture) are tracked for Phase 2B; until then, iterator-bearing recipes against listing-shaped sources of those modes should decline at authoring.");
                Err(ApplyError::NotImplemented { mode: "iterator", reason: string_of(m.as_slice()) })
            },
        },
    }
}

// ---------------------------------------------------------------------------
// Per-record dedup keys
// ---------------------------------------------------------------------------

/// Most characters of a field value a dedup key carries.
pub const DEDUP_FIELD_VALUE_BUDGET: usize = 200;

/// Index of the first field mapping with path `path`.
pub open spec fn first_mapping_at(fms: Seq<FieldMap>, path: Seq<char>) -> Option<int>
    decreases fms.len(),
{
    if fms.len() == 0 {
        None
    } else if fms[0].path@ == path {
        Some(0)
    } else {
        match first_mapping_at(fms.drop_first(), path) {
            Some(i) => Some(i + 1),
            None => None,
        }
    }
}

/// The value of the first inner extraction named `key`.
pub open spec fn inner_lookup(inner: Seq<(Seq<char>, Seq<char>)>, key: Seq<char>) -> Option<Seq<char>>
    decreases inner.len(),
{
    if inner.len() == 0 {
        None
    } else if inner[0].0 == key {
        Some(inner[0].1)
    } else {
        inner_lookup(inner.drop_first(), key)
    }
}

/// The inner extractions as text pairs.
pub open spec fn inner_view(inner: Option<&Vec<(String, String)>>) -> Option<Seq<(Seq<char>, Seq<char>)>> {
    match inner {
        Some(v) => Some(v@.map_values(|p: (String, String)| (p.0@, p.1@))),
        None => None,
    }
}

/// The text a literal stands for: the JSON value's text, or the literal
/// itself when it is not JSON.
pub open spec fn literal_value_text(value: Seq<char>) -> Seq<char> {
    match json_literal_text(value) {
        Some(t) => t,
        None => value,
    }
}

/// The dedup key of one record an iterator recipe produces,
/// `{recipe_id}:{value}` with the value of the binding's
/// `dedup_key_field` cut to `DEDUP_FIELD_VALUE_BUDGET` characters, or
/// the field-mapping error's reason.
pub open spec fn spec_dedup_key(
    binding: ProductionBinding,
    extracted: Seq<char>,
    inner: Option<Seq<(Seq<char>, Seq<char>)>>,
    recipe_id: Seq<char>,
) -> Result<Seq<char>, Seq<char>> {
    match binding.dedup_key_field {
        None => Err(
            "iterator recipe missing dedup_key_field (validator should have rejected this; the row may be a hand-edit or pre-validation legacy)"@,
        ),
        Some(f) => match first_mapping_at(binding.field_mappings@, f@) {
            None => Err("dedup_key_field "@ + debug_str(f@)
                + " does not match any field_mappings path; the validator should have rejected this at authoring time"@),
            Some(i) => {
                let raw: Result<Seq<char>, Seq<char>> = match binding.field_mappings@[i].source {
                    FieldValueSource::Extracted => Ok(extracted),
                    FieldValueSource::Literal { value } => Ok(literal_value_text(value@)),
                    FieldValueSource::FromPlan { .. } => Err("dedup_key_field "@ + debug_str(f@)
                        + " uses FromPlan source; iterator recipes need per-record dedup, and a plan-derived field is constant across records. Author the recipe with `extracted` for the dedup_key_field's source, or pick a different path."@),
                    FieldValueSource::ExtractedInner { .. } => match inner {
                        None => Err("dedup_key_field "@ + debug_str(f@)
                            + " resolves to ExtractedInner but the apply path did not thread an inner-extractions map. ADR 0019 Phase 2A: iterator + multi-field flows must compute inner extractions before dispatch."@),
                        Some(m) => match inner_lookup(m, f@) {
                            Some(v) => Ok(v),
                            None => Err("dedup_key_field "@ + debug_str(f@)
                                + " resolves to ExtractedInner but produced no leaf for this match."@),
                        },
                    },
                };
                match raw {
                    Ok(v) => Ok(recipe_id + ":"@ + prefix_chars(v, DEDUP_FIELD_VALUE_BUDGET as nat)),
                    Err(e) => Err(e),
                }
            },
        },
    }
}

/// `r` is the dedup key `expected`, or the field-mapping error it names.
pub open spec fn dedup_key_matches(r: Result<String, ApplyError>, expected: Result<Seq<char>, Seq<char>>) -> bool {
    match expected {
        Ok(k) => r matches Ok(s) && s@ == k,
        Err(reason) => r matches Err(ApplyError::FieldMapping { reason: x }) && x@ == reason,
    }
}

fn field_mapping_error(reason: Vec<char>) -> (r: Result<String, ApplyError>)
    ensures
        r matches Err(ApplyError::FieldMapping { reason: x }) && x@ == reason@,
{
    Err(ApplyError::FieldMapping { reason: string_of(reason.as_slice()) })
}

fn find_mapping(fms: &Vec<FieldMap>, path: &str) -> (r: Option<usize>)
    ensures
        r matches Some(k) ==> k < fms@.len() && first_mapping_at(fms@, path@) == Some(k as int),
        r is None ==> first_mapping_at(fms@, path@) is None,
{
    let mut i: usize = 0;
    assert(fms@.skip(0) =~= fms@);
    while i < fms.len()
        invariant
            i <= fms.len(),
            first_mapping_at(fms@, path@) == (match first_mapping_at(fms@.skip(i as int), path@) {
                Some(j) => Some(j + i),
                None => None::<int>,
            }),
        decreases fms.len() - i,
    {
        assert(fms@.skip(i as int).drop_first() =~= fms@.skip(i + 1));
        assert(fms@.skip(i as int)[0] == fms@[i as int]);
        if str_eq(fms[i].path.as_str(), path) {
            return Some(i);
        }
        i += 1;
    }
    assert(fms@.skip(i as int).len() == 0);
    None
}

fn find_inner<'a>(inner: &'a Vec<(String, String)>, key: &str) -> (r: Option<&'a String>)
    ensures
        match inner_lookup(inner@.map_values(|p: (String, String)| (p.0@, p.1@)), key@) {
            Some(v) => r matches Some(s) && s@ == v,
            None => r is None,
        },
{
    let ghost all = inner@.map_values(|p: (String, String)| (p.0@, p.1@));
    let mut i: usize = 0;
    assert(all.skip(0) =~= all);
    while i < inner.len()
        invariant
            i <= inner.len(),
            all == inner@.map_values(|p: (String, String)| (p.0@, p.1@)),
            inner_lookup(all, key@) == inner_lookup(all.skip(i as int), key@),
        decreases inner.len() - i,
    {
        assert(all.skip(i as int).drop_first() =~= all.skip(i + 1));
        assert(all.skip(i as int)[0] == all[i as int]);
        if str_eq(inner[i].0.as_str(), key) {
            return Some(&inner[i].1);
        }
        i += 1;
    }
    assert(all.skip(i as int).len() == 0);
    None
}

/// The dedup key of one record an iterator recipe produces: the recipe
/// id, `:`, and the value of the binding's `dedup_key_field`, cut to
/// `DEDUP_FIELD_VALUE_BUDGET` characters. The field's value is the
/// extracted scalar, the literal's text, or the named inner extraction;
/// a missing field, a field no mapping has, a plan-derived field and a
/// missing inner leaf are field-mapping errors.
pub fn compute_dedup_key(
    binding: &ProductionBinding,
    extracted: &str,
    inner: Option<&Vec<(String, String)>>,
    recipe_id: &str,
) -> (r: Result<String, ApplyError>)
    ensures
        dedup_key_matches(r, spec_dedup_key(*binding, extracted@, inner_view(inner), recipe_id@)),
{
    let f = match &binding.dedup_key_field {
        None => {
            let mut m: Vec<char> = Vec::new();
            push_str(&mut m, "iterator recipe missing dedup_key_field (validator should have rejected this; the row may be a hand-edit or pre-validation legacy)");
            return field_mapping_error(m);
        },
        Some(f) => f,
    };
    let i = match find_mapping(&binding.field_mappings, f.as_str()) {
        None => {
            let mut m: Vec<char> = Vec::new();
            push_str(&mut m, "dedup_key_field ");
            push_str(&mut m, debug_quoted(f.as_str()).as_str());
            push_str(&mut m, " does not match any field_mappings path; the validator should have rejected this at authoring time");
            return field_mapping_error(m);
        },
        Some(i) => i,
    };
    let raw: String = match &binding.field_mappings[i].source {
        FieldValueSource::Extracted => extracted.to_string(),
        FieldValueSource::Literal { value } => match literal_text(value.as_str()) {
            Some(t) => t,
            None => value.clone(),
        },
        FieldValueSource::FromPlan { .. } => {
            let mut m: Vec<char> = Vec::new();
            push_str(&mut m, "dedup_key_field ");
            push_str(&mut m, debug_quoted(f.as_str()).as_str());
            push_str(&mut m, " uses FromPlan source; iterator recipes need per-record dedup, and a plan-derived field is constant across records. Author the recipe with `extracted` for the dedup_key_field's source, or pick a different path.");
            return field_mapping_error(m);
        },
        FieldValueSource::ExtractedInner { .. } => match inner {
            None => {
                let mut m: Vec<char> = Vec::new();
                push_str(&mut m, "dedup_key_field ");
                push_str(&mut m, debug_quoted(f.as_str()).as_str());
                push_str(&mut m, " resolves to ExtractedInner but the apply path did not thread an inner-extractions map. ADR 0019 Phase 2A: iterator + multi-field flows must compute inner extractions before dispatch.");
                return field_mapping_error(m);
            },
            Some(map) => match find_inner(map, f.as_str()) {
                Some(v) => v.clone(),
                None => {
                    let mut m: Vec<char> = Vec::new();
                    push_str(&mut m, "dedup_key_field ");
                    push_str(&mut m, debug_quoted(f.as_str()).as_str());
                    push_str(&mut m, " resolves to ExtractedInner but produced no leaf for this match.");
                    return field_mapping_error(m);
                },
            },
        },
    };
    let chars = chars_of(raw.as_str());
    let keep = if chars.len() <= DEDUP_FIELD_VALUE_BUDGET {
        chars.len()
    } else {
        DEDUP_FIELD_VALUE_BUDGET
    };
    let head = crate::strings::copy_range(chars.as_slice(), 0, keep);
    assert(head@ =~= prefix_chars(raw@, DEDUP_FIELD_VALUE_BUDGET as nat));
    let mut out: Vec<char> = Vec::new();
    push_str(&mut out, recipe_id);
    push_str(&mut out, ":");
    push_all(&mut out, head.as_slice());
    Ok(string_of(out.as_slice()))
}

// ---------------------------------------------------------------------------
// The CSS iterator runtime
// ---------------------------------------------------------------------------

/// One record an iterator recipe yields, before its content is
/// assembled into the target record type: the binding that produces it,
/// the match's extracted scalar, its inner extractions (for bindings
/// with inner field maps) and its dedup key.
#[derive(Debug, Clone, PartialEq, Eq)]
pub struct AppliedRecord {
    pub binding_index: usize,
    pub extracted: String,
    pub inner: Option<Vec<(String, String)>>,
    pub dedup_key: String,
}

/// [`AppliedRecord`] as plain values.
pub struct AppliedView {
    pub binding_index: nat,
    pub extracted: Seq<char>,
    pub inner: Option<Seq<(Seq<char>, Seq<char>)>>,
    pub dedup_key: Seq<char>,
}

/// The inner extractions as text pairs.
pub open spec fn pairs_view(v: Vec<(String, String)>) -> Seq<(Seq<char>, Seq<char>)> {
    v@.map_values(|p: (String, String)| (p.0@, p.1@))
}

impl View for AppliedRecord {
    type V = AppliedView;

    open spec fn view(&self) -> AppliedView {
        AppliedView {
            binding_index: self.binding_index as nat,
            extracted: self.extracted@,
            inner: match self.inner {
                Some(v) => Some(pairs_view(v)),
                None => None,
            },
            dedup_key: self.dedup_key@,
        }
    }
}

/// Why applying a recipe failed, as plain values.
pub enum ApplyFailure {
    Extraction(Seq<char>, Seq<char>),
    NotImplemented(Seq<char>, Seq<char>),
    FieldMapping(Seq<char>),
    Binding(nat, Seq<char>),
}

/// `e` is the failure `f`.
pub open spec fn failure_is(e: ApplyError, f: ApplyFailure) -> bool {
    match f {
        ApplyFailure::Extraction(mode, reason) => e matches ApplyError::Extraction { mode: m, reason: x } && m@ == mode
            && x@ == reason,
        ApplyFailure::NotImplemented(mode, reason) => e matches ApplyError::NotImplemented { mode: m, reason: x }
            && m@ == mode && x@ == reason,
        ApplyFailure::FieldMapping(reason) => e matches ApplyError::FieldMapping { reason: x } && x@ == reason,
        ApplyFailure::Binding(index, reason) => e matches ApplyError::Binding { index: i, reason: x } && i as nat == index
            && x@ == reason,
    }
}

/// `r` is the applied outcome `expected`.
pub open spec fn applied_matches(r: Result<Vec<AppliedRecord>, ApplyError>, expected: Result<Seq<AppliedView>, ApplyFailure>) -> bool {
    match expected {
        Ok(recs) => r matches Ok(v) && v@.map_values(|a: AppliedRecord| a@) == recs,
        Err(f) => r matches Err(e) && failure_is(e, f),
    }
}

/// What the first inner match within one outer match gives: its text
/// trimmed (or its attribute as it is), which must be non-empty and
/// within the scalar bound.
pub open spec fn spec_css_within(leaf: Option<Option<Seq<char>>>, attr: Option<Seq<char>>) -> Result<Seq<char>, Seq<char>> {
    match leaf {
        None => Err(
            "inner selector matched no elements within iterator match (the iterator's selector matched a card, but the inner selector found nothing inside it). Likely cause: the inner selector is targeted at a sibling rather than a descendant of the iterator's match."@,
        ),
        Some(None) => Err("iterator-matched element has no attribute "@ + debug_str(
            match attr {
                Some(a) => a,
                None => Seq::empty(),
            },
        )),
        Some(Some(t)) => {
            let out = match attr {
                None => trim(t),
                Some(_) => t,
            };
            if out.len() == 0 {
                Err("inner selection within iterator match resolved to empty string"@)
            } else {
                spec_bound(out)
            }
        },
    }
}

/// `m` with `value` under `key`: replacing the first entry with that
/// key, or appended.
pub open spec fn pairs_put(m: Seq<(Seq<char>, Seq<char>)>, key: Seq<char>, value: Seq<char>) -> Seq<(Seq<char>, Seq<char>)>
    decreases m.len(),
{
    if m.len() == 0 {
        seq![(key, value)]
    } else if m[0].0 == key {
        m.update(0, (key, value))
    } else {
        seq![m[0]] + pairs_put(m.drop_first(), key, value)
    }
}

/// How an inner extraction's error names its field map: inside an
/// iterator run, behind the binding's index.
pub open spec fn inner_lead(tagged: bool, idx: nat, path: Seq<char>) -> Seq<char> {
    (if tagged { "binding["@ + decimal(idx) + "] ExtractedInner: "@ } else { Seq::empty() }) + "FieldMap "@ + debug_str(path)
}

fn push_inner_lead_tag(out: &mut Vec<char>, tagged: bool, idx: usize)
    ensures
        final(out)@ == old(out)@ + (if tagged { "binding["@ + decimal(idx as nat) + "] ExtractedInner: "@ } else { Seq::<char>::empty() }),
{
    if tagged {
        push_str(out, "binding[");
        push_decimal(out, idx as u64);
        push_str(out, "] ExtractedInner: ");
    } else {
        assert(old(out)@ + Seq::<char>::empty() =~= old(out)@);
    }
}

/// The binding has field maps with inner extractions.
pub open spec fn needs_inner(b: ProductionBinding) -> bool {
    exists|j: int| 0 <= j < b.field_mappings@.len() && (#[trigger] b.field_mappings@[j]).source is ExtractedInner
}

/// The inner extractions of the first `j` field maps of binding `idx`
/// within outer match `m`.
pub open spec fn spec_css_inner_fold(
    html: Seq<char>,
    outer: Seq<char>,
    fms: Seq<FieldMap>,
    idx: nat,
    tagged: bool,
    m: int,
    j: int,
) -> Result<Seq<(Seq<char>, Seq<char>)>, ApplyFailure>
    decreases j,
{
    if j <= 0 {
        Ok(Seq::empty())
    } else {
        match spec_css_inner_fold(html, outer, fms, idx, tagged, m, j - 1) {
            Err(e) => Err(e),
            Ok(prev) => {
                let fm = fms[j - 1];
                let lead = inner_lead(tagged, idx, fm.path@);
                match fm.source {
                    FieldValueSource::ExtractedInner { spec } => match spec {
                        ExtractionSpec::CssSelect { selector, attribute } => match css_scoped_leaf(
                            html,
                            outer,
                            selector@,
                            opt_string_view(attribute),
                        ) {
                            CssLeavesView::BadInner(d) => Err(
                                ApplyFailure::Extraction(
                                    "css_select"@,
                                    lead + " inner selector "@ + debug_str(selector@) + " did not parse: "@ + d,
                                ),
                            ),
                            CssLeavesView::BadOuter(_) => Err(ApplyFailure::Extraction("css_select"@, Seq::empty())),
                            CssLeavesView::Leaves(w) => match spec_css_within(w[m], opt_string_view(attribute)) {
                                Err(r) => Err(ApplyFailure::Extraction("css_select"@, lead + ": "@ + r)),
                                Ok(leaf) => Ok(pairs_put(prev, fm.path@, leaf)),
                            },
                        },
                        other => Err(
                            ApplyFailure::NotImplemented(
                                "extracted_inner"@,
                                "FieldMap "@ + debug_str(fm.path@) + ": ExtractedInner sub-spec mode "@ + spec_mode_name(
                                    other,
                                )
                                    + " is not supported in Phase 2A inside a css_select scope. The validator should have rejected this at authoring time (ADR 0019 rule (iv)); the row may be a hand-edit or pre-validation legacy."@,
                            ),
                        ),
                    },
                    _ => Ok(prev),
                }
            },
        }
    }
}

/// The inner extractions of binding `idx` within outer match `m`: none
/// when it has no inner field maps.
pub open spec fn spec_css_inner(html: Seq<char>, outer: Seq<char>, b: ProductionBinding, idx: nat, tagged: bool, m: int) -> Result<
    Option<Seq<(Seq<char>, Seq<char>)>>,
    ApplyFailure,
> {
    if !needs_inner(b) {
        Ok(None)
    } else {
        match spec_css_inner_fold(html, outer, b.field_mappings@, idx, tagged, m, b.field_mappings@.len() as int) {
            Ok(p) => Ok(Some(p)),
            Err(e) => Err(e),
        }
    }
}

/// The records of the first `k` bindings for outer match `m`, whose
/// extracted scalar is `x`.
pub open spec fn spec_css_bindings(
    recipe: FetchRecipe,
    html: Seq<char>,
    outer: Seq<char>,
    m: int,
    x: Seq<char>,
    k: int,
) -> Result<Seq<AppliedView>, ApplyFailure>
    decreases k,
{
    if k <= 0 {
        Ok(Seq::empty())
    } else {
        match spec_css_bindings(recipe, html, outer, m, x, k - 1) {
            Err(e) => Err(e),
            Ok(prev) => {
                let b = recipe.produces@[k - 1];
                match spec_css_inner(html, outer, b, (k - 1) as nat, true, m) {
                    Err(e) => Err(e),
                    Ok(inner) => match spec_dedup_key(b, x, inner, recipe.id@) {
                        Err(r) => Err(ApplyFailure::FieldMapping(r)),
                        Ok(key) => Ok(
                            prev.push(AppliedView { binding_index: (k - 1) as nat, extracted: x, inner, dedup_key: key }),
                        ),
                    },
                }
            },
        }
    }
}

/// The records of the first `n` outer matches, in match order and, per
/// match, binding order.
pub open spec fn spec_css_records(
    recipe: FetchRecipe,
    html: Seq<char>,
    outer: Seq<char>,
    attr: Option<Seq<char>>,
    leaves: Seq<Option<Option<Seq<char>>>>,
    n: int,
) -> Result<Seq<AppliedView>, ApplyFailure>
    decreases n,
{
    if n <= 0 {
        Ok(Seq::empty())
    } else {
        match spec_css_records(recipe, html, outer, attr, leaves, n - 1) {
            Err(e) => Err(e),
            Ok(prev) => match spec_css_within(leaves[n - 1], attr) {
                Err(r) => Err(ApplyFailure::Extraction("css_select"@, r)),
                Ok(x) => match spec_css_bindings(recipe, html, outer, n - 1, x, recipe.produces@.len() as int) {
                    Err(e) => Err(e),
                    Ok(recs) => Ok(prev + recs),
                },
            },
        }
    }
}

/// The cap's reason.
pub open spec fn cap_reason(n: nat) -> Seq<char> {
    "iterator produced "@ + decimal(n) + " matches; cap is "@ + decimal(MAX_RECORDS_PER_RECIPE as nat)
        + " (ADR 0016 \u{a7}Consequences). Likely cause: the iterator selector matches too broadly (every link rather than every card), or the source is a pagination-shaped listing whose first page already exceeds the cap. Refine the selector to target distinct cards, or pick a narrower listing endpoint."@
}

/// What applying a CSS iterator recipe gives: per outer match (at most
/// `MAX_RECORDS_PER_RECIPE` of them), the inner selection's scalar, then
/// per binding its inner extractions and dedup key.
pub open spec fn spec_apply_css_iterator(
    recipe: FetchRecipe,
    bytes: Seq<u8>,
    outer: Seq<char>,
    inner: Seq<char>,
    attr: Option<Seq<char>>,
) -> Result<Seq<AppliedView>, ApplyFailure> {
    if !valid_utf8(bytes) {
        Err(ApplyFailure::Extraction("css_select"@, not_utf8_reason(bytes)))
    } else {
        let html = decode_utf8(bytes);
        spec_css_iterator_outcome(recipe, html, outer, attr, css_scoped_leaf(html, outer, inner, attr))
    }
}

/// What a CSS iterator recipe gives from the outcome `o` of the scoped
/// selection over page `html`: the selection's errors, no match, more
/// matches than `MAX_RECORDS_PER_RECIPE`, or the records of every match.
pub open spec fn spec_css_iterator_outcome(
    recipe: FetchRecipe,
    html: Seq<char>,
    outer: Seq<char>,
    attr: Option<Seq<char>>,
    o: CssLeavesView,
) -> Result<Seq<AppliedView>, ApplyFailure> {
    match o {
        CssLeavesView::BadOuter(d) => Err(ApplyFailure::Extraction("css_select"@, "iterator selector did not parse: "@ + d)),
        CssLeavesView::BadInner(d) => Err(ApplyFailure::Extraction("css_select"@, "inner selector did not parse: "@ + d)),
        CssLeavesView::Leaves(v) => if v.len() == 0 {
            Err(ApplyFailure::Extraction("css_select"@, "iterator selector "@ + debug_str(outer) + " matched no elements"@))
        } else if v.len() > MAX_RECORDS_PER_RECIPE {
            Err(ApplyFailure::Extraction("css_select"@, cap_reason(v.len())))
        } else {
            spec_css_records(recipe, html, outer, attr, v, v.len() as int)
        },
    }
}

proof fn lemma_inner_fold_err(html: Seq<char>, outer: Seq<char>, fms: Seq<FieldMap>, idx: nat, tagged: bool, m: int, j: int, k: int)
    requires
        j <= k,
        spec_css_inner_fold(html, outer, fms, idx, tagged, m, j) is Err,
    ensures
        spec_css_inner_fold(html, outer, fms, idx, tagged, m, k) == spec_css_inner_fold(html, outer, fms, idx, tagged, m, j),
    decreases k - j,
{
    if j < k {
        lemma_inner_fold_err(html, outer, fms, idx, tagged, m, j, k - 1);
    }
}

proof fn lemma_bindings_err(recipe: FetchRecipe, html: Seq<char>, outer: Seq<char>, m: int, x: Seq<char>, j: int, k: int)
    requires
        j <= k,
        spec_css_bindings(recipe, html, outer, m, x, j) is Err,
    ensures
        spec_css_bindings(recipe, html, outer, m, x, k) == spec_css_bindings(recipe, html, outer, m, x, j),
    decreases k - j,
{
    if j < k {
        lemma_bindings_err(recipe, html, outer, m, x, j, k - 1);
    }
}

proof fn lemma_records_err(
    recipe: FetchRecipe,
    html: Seq<char>,
    outer: Seq<char>,
    attr: Option<Seq<char>>,
    leaves: Seq<Option<Option<Seq<char>>>>,
    j: int,
    k: int,
)
    requires
        j <= k,
        spec_css_records(recipe, html, outer, attr, leaves, j) is Err,
    ensures
        spec_css_records(recipe, html, outer, attr, leaves, k) == spec_css_records(recipe, html, outer, attr, leaves, j),
    decreases k - j,
{
    if j < k {
        lemma_records_err(recipe, html, outer, attr, leaves, j, k - 1);
    }
}

fn css_within(leaf: &Option<Option<String>>, attr: Option<&str>) -> (r: Result<String, ApplyError>)
    ensures
        outcome_matches(r, spec_css_within(leaf.deep_view(), opt_str_view(attr)), "css_select"@),
{
    match leaf {
        None => {
            let mut m: Vec<char> = Vec::new();
            push_str(&mut m, "inner selector matched no elements within iterator match (the iterator's selector matched a card, but the inner selector found nothing inside it). Likely cause: the inner selector is targeted at a sibling rather than a descendant of the iterator's match.");
            extraction_error("css_select", m)
        },
        Some(None) => {
            let name: &str = match attr {
                Some(a) => a,
                None => "",
            };
            proof {
                if attr is None {
                    reveal_strlit("");
                    assert(name@ =~= Seq::<char>::empty());
                }
            }
            let mut m: Vec<char> = Vec::new();
            push_str(&mut m, "iterator-matched element has no attribute ");
            push_str(&mut m, debug_quoted(name).as_str());
            extraction_error("css_select", m)
        },
        Some(Some(t)) => {
            let chars = chars_of(t.as_str());
            let out: Vec<char> = match attr {
                None => trim_chars(chars.as_slice()),
                Some(_) => chars,
            };
            if out.len() == 0 {
                let mut m: Vec<char> = Vec::new();
                push_str(&mut m, "inner selection within iterator match resolved to empty string");
                return extraction_error("css_select", m);
            }
            bound_extracted(string_of(out.as_slice()), "css_select")
        },
    }
}

fn put_pair(m: &mut Vec<(String, String)>, key: &String, value: String)
    ensures
        pairs_view(*final(m)) == pairs_put(pairs_view(*old(m)), key@, value@),
{
    let ghost before = pairs_view(*m);
    let mut i: usize = 0;
    assert(before.skip(0) =~= before);
    while i < m.len()
        invariant
            i <= m.len(),
            before == pairs_view(*old(m)),
            m@ == old(m)@,
            forall|q: int| 0 <= q < i ==> before[q].0 != key@,
        decreases m.len() - i,
    {
        if str_eq(m[i].0.as_str(), key.as_str()) {
            let ghost prev = m@;
            m.set(i, (key.clone(), value));
            proof {
                lemma_pairs_put_at(before, key@, value@, i as int);
                assert(pairs_view(*m) =~= before.update(i as int, (key@, value@)));
            }
            return;
        }
        i += 1;
    }
    m.push((key.clone(), value));
    proof {
        lemma_pairs_put_absent(before, key@, value@);
        assert(pairs_view(*m) =~= before.push((key@, value@)));
    }
}

proof fn lemma_pairs_put_at(m: Seq<(Seq<char>, Seq<char>)>, key: Seq<char>, value: Seq<char>, i: int)
    requires
        0 <= i < m.len(),
        m[i].0 == key,
        forall|q: int| 0 <= q < i ==> m[q].0 != key,
    ensures
        pairs_put(m, key, value) == m.update(i, (key, value)),
    decreases i,
{
    if i > 0 {
        lemma_pairs_put_at(m.drop_first(), key, value, i - 1);
        assert(pairs_put(m, key, value) =~= seq![m[0]] + m.drop_first().update(i - 1, (key, value)));
        assert(m.update(i, (key, value)) =~= seq![m[0]] + m.drop_first().update(i - 1, (key, value)));
    }
}

proof fn lemma_pairs_put_absent(m: Seq<(Seq<char>, Seq<char>)>, key: Seq<char>, value: Seq<char>)
    requires
        forall|q: int| 0 <= q < m.len() ==> m[q].0 != key,
    ensures
        pairs_put(m, key, value) == m.push((key, value)),
    decreases m.len(),
{
    if m.len() > 0 {
        lemma_pairs_put_absent(m.drop_first(), key, value);
        assert(m.push((key, value)) =~= seq![m[0]] + m.drop_first().push((key, value)));
    } else {
        assert(seq![(key, value)] =~= m.push((key, value)));
    }
}

fn failure(e: ApplyError) -> (r: Result<Option<Vec<(String, String)>>, ApplyError>)
    ensures
        r == Err::<Option<Vec<(String, String)>>, ApplyError>(e),
{
    Err(e)
}

fn css_inner(html: &str, outer: &str, b: &ProductionBinding, idx: usize, tagged: bool, m: usize, count: usize) -> (r: Result<
    Option<Vec<(String, String)>>,
    ApplyError,
>)
    requires
        css_outer_count(html@, outer@) == Some(count as nat),
        m < count,
    ensures
        match spec_css_inner(html@, outer@, *b, idx as nat, tagged, m as int) {
            Ok(Some(p)) => r matches Ok(Some(v)) && pairs_view(v) == p,
            Ok(None) => r matches Ok(None),
            Err(f) => r matches Err(e) && failure_is(e, f),
        },
{
    let mut any = false;
    let mut q: usize = 0;
    while q < b.field_mappings.len()
        invariant
            q <= b.field_mappings.len(),
            any == exists|j: int| 0 <= j < q && (#[trigger] b.field_mappings@[j]).source is ExtractedInner,
        decreases b.field_mappings.len() - q,
    {
        if let FieldValueSource::ExtractedInner { .. } = &b.field_mappings[q].source {
            any = true;
        }
        q += 1;
    }
    if !any {
        return Ok(None);
    }
    let mut acc: Vec<(String, String)> = Vec::new();
    let mut j: usize = 0;
    assert(pairs_view(acc) =~= Seq::<(Seq<char>, Seq<char>)>::empty());
    while j < b.field_mappings.len()
        invariant
            j <= b.field_mappings.len(),
            needs_inner(*b),
            css_outer_count(html@, outer@) == Some(count as nat),
            m < count,
            spec_css_inner_fold(html@, outer@, b.field_mappings@, idx as nat, tagged, m as int, j as int) == Ok::<
                Seq<(Seq<char>, Seq<char>)>,
                ApplyFailure,
            >(pairs_view(acc)),
        decreases b.field_mappings.len() - j,
    {
        let fm = &b.field_mappings[j];
        if let FieldValueSource::ExtractedInner { spec } = &fm.source {
            let mut lead: Vec<char> = Vec::new();
            push_inner_lead_tag(&mut lead, tagged, idx);
            push_str(&mut lead, "FieldMap ");
            push_str(&mut lead, debug_quoted(fm.path.as_str()).as_str());
            match spec {
                ExtractionSpec::CssSelect { selector, attribute } => {
                    match select_scoped_leaves(html, outer, selector.as_str(), opt_as_str(attribute)) {
                        CssLeavesOutcome::BadInner { detail } => {
                            let mut msg = lead;
                            push_str(&mut msg, " inner selector ");
                            push_str(&mut msg, debug_quoted(selector.as_str()).as_str());
                            push_str(&mut msg, " did not parse: ");
                            push_str(&mut msg, detail.as_str());
                            proof {
                                lemma_inner_fold_err(html@, outer@, b.field_mappings@, idx as nat, tagged, m as int, j + 1, b.field_mappings@.len() as int);
                            }
                            return failure(ApplyError::Extraction { mode: "css_select", reason: string_of(msg.as_slice()) });
                        },
                        CssLeavesOutcome::BadOuter { .. } => {
                            assert(false);
                            return failure(ApplyError::Extraction { mode: "css_select", reason: String::new() });
                        },
                        CssLeavesOutcome::Leaves { values } => {
                            assert(values.deep_view()[m as int] == values@[m as int].deep_view());
                            match css_within(&values[m], opt_as_str(attribute)) {
                                Err(e) => {
                                    let reason = match e {
                                        ApplyError::Extraction { reason, .. } => reason,
                                        _ => String::new(),
                                    };
                                    let mut msg = lead;
                                    push_str(&mut msg, ": ");
                                    push_str(&mut msg, reason.as_str());
                                    proof {
                                        lemma_inner_fold_err(html@, outer@, b.field_mappings@, idx as nat, tagged, m as int, j + 1, b.field_mappings@.len() as int);
                                    }
                                    return failure(ApplyError::Extraction { mode: "css_select", reason: string_of(msg.as_slice()) });
                                },
                                Ok(leaf) => {
                                    put_pair(&mut acc, &fm.path, leaf);
                                },
                            }
                        },
                    }
                },
                other => {
                    let mut msg: Vec<char> = Vec::new();
                    push_str(&mut msg, "FieldMap ");
                    push_str(&mut msg, debug_quoted(fm.path.as_str()).as_str());
                    push_str(&mut msg, ": ExtractedInner sub-spec mode ");
                    push_str(&mut msg, mode_name(other));
                    push_str(&mut msg, " is not supported in Phase 2A inside a css_select scope. The validator should have rejected this at authoring time (ADR 0019 rule (iv)); the row may be a hand-edit or pre-validation legacy.");
                    proof {
                        lemma_inner_fold_err(html@, outer@, b.field_mappings@, idx as nat, tagged, m as int, j + 1, b.field_mappings@.len() as int);
                    }
                    return failure(ApplyError::NotImplemented { mode: "extracted_inner", reason: string_of(msg.as_slice()) });
                },
            }
        }
        j += 1;
    }
    Ok(Some(acc))
}

fn css_bindings(recipe: &FetchRecipe, html: &str, outer: &str, m: usize, x: &String, count: usize) -> (r: Result<
    Vec<AppliedRecord>,
    ApplyError,
>)
    requires
        css_outer_count(html@, outer@) == Some(count as nat),
        m < count,
    ensures
        applied_matches(r, spec_css_bindings(*recipe, html@, outer@, m as int, x@, recipe.produces@.len() as int)),
{
    let mut out: Vec<AppliedRecord> = Vec::new();
    let mut k: usize = 0;
    assert(out@.map_values(|a: AppliedRecord| a@) =~= Seq::<AppliedView>::empty());
    while k < recipe.produces.len()
        invariant
            k <= recipe.produces.len(),
            css_outer_count(html@, outer@) == Some(count as nat),
            m < count,
            spec_css_bindings(*recipe, html@, outer@, m as int, x@, k as int) == Ok::<Seq<AppliedView>, ApplyFailure>(
                out@.map_values(|a: AppliedRecord| a@),
            ),
        decreases recipe.produces.len() - k,
    {
        let b = &recipe.produces[k];
        let inner = match css_inner(html, outer, b, k, true, m, count) {
            Err(e) => {
                proof {
                    lemma_bindings_err(*recipe, html@, outer@, m as int, x@, k + 1, recipe.produces@.len() as int);
                }
                return Err(e);
            },
            Ok(i) => i,
        };
        let key = match compute_dedup_key(b, x.as_str(), inner.as_ref(), recipe.id.as_str()) {
            Err(e) => {
                proof {
                    lemma_bindings_err(*recipe, html@, outer@, m as int, x@, k + 1, recipe.produces@.len() as int);
                }
                return Err(e);
            },
            Ok(k2) => k2,
        };
        let rec = AppliedRecord { binding_index: k, extracted: x.clone(), inner, dedup_key: key };
        let ghost before = out@.map_values(|a: AppliedRecord| a@);
        out.push(rec);
        proof {
            assert(out@.map_values(|a: AppliedRecord| a@) =~= before.push(rec@));
        }
        k += 1;
    }
    Ok(out)
}

/// Apply a `css_select` × `css_select` iterator recipe to fetched bytes:
/// each element the iterator selector matches (at most
/// `MAX_RECORDS_PER_RECIPE`) yields, per binding, a record with the inner
/// selection's scalar, the binding's inner extractions within that
/// element and its dedup key. The first failure ends the run.
pub fn apply_css_iterator(
    recipe: &FetchRecipe,
    bytes: &[u8],
    iter_selector: &str,
    inner_selector: &str,
    inner_attribute: Option<&str>,
) -> (r: Result<Vec<AppliedRecord>, ApplyError>)
    ensures
        applied_matches(
            r,
            spec_apply_css_iterator(*recipe, bytes@, iter_selector@, inner_selector@, opt_str_view(inner_attribute)),
        ),
{
    let html = match utf8_str(bytes) {
        Ok(h) => h,
        Err(e) => {
            let mut m: Vec<char> = Vec::new();
            push_str(&mut m, "bytes were not UTF-8: ");
            push_str(&mut m, e.as_str());
            return Err(ApplyError::Extraction { mode: "css_select", reason: string_of(m.as_slice()) });
        },
    };
    let outcome = select_scoped_leaves(html.as_str(), iter_selector, inner_selector, inner_attribute);
    css_iterator_records(recipe, html.as_str(), iter_selector, inner_attribute, &outcome)
}

/// The records of a CSS iterator recipe, from the outcome of selecting
/// each match of `iter_selector` in `html` and its first inner match:
/// each match (at most `MAX_RECORDS_PER_RECIPE`) yields, per binding, a
/// record with the inner selection's scalar, the binding's inner
/// extractions within that match and its dedup key. The first failure
/// ends the run.
pub fn css_iterator_records(
    recipe: &FetchRecipe,
    html: &str,
    iter_selector: &str,
    inner_attribute: Option<&str>,
    outcome: &CssLeavesOutcome,
) -> (r: Result<Vec<AppliedRecord>, ApplyError>)
    requires
        outcome@ matches CssLeavesView::Leaves(v) ==> css_outer_count(html@, iter_selector@) == Some(v.len()),
    ensures
        applied_matches(r, spec_css_iterator_outcome(*recipe, html@, iter_selector@, opt_str_view(inner_attribute), outcome@)),
{
    let values = match outcome {
        CssLeavesOutcome::BadOuter { detail } => {
            let mut m: Vec<char> = Vec::new();
            push_str(&mut m, "iterator selector did not parse: ");
            push_str(&mut m, detail.as_str());
            return Err(ApplyError::Extraction { mode: "css_select", reason: string_of(m.as_slice()) });
        },
        CssLeavesOutcome::BadInner { detail } => {
            let mut m: Vec<char> = Vec::new();
            push_str(&mut m, "inner selector did not parse: ");
            push_str(&mut m, detail.as_str());
            return Err(ApplyError::Extraction { mode: "css_select", reason: string_of(m.as_slice()) });
        },
        CssLeavesOutcome::Leaves { values } => values,
    };
    let count = values.len();
    if count == 0 {
        let mut m: Vec<char> = Vec::new();
        push_str(&mut m, "iterator selector ");
        push_str(&mut m, debug_quoted(iter_selector).as_str());
        push_str(&mut m, " matched no elements");
        return Err(ApplyError::Extraction { mode: "css_select", reason: string_of(m.as_slice()) });
    }
    if count > MAX_RECORDS_PER_RECIPE {
        let mut m: Vec<char> = Vec::new();
        push_str(&mut m, "iterator produced ");
        push_decimal(&mut m, count as u64);
        push_str(&mut m, " matches; cap is ");
        push_decimal(&mut m, MAX_RECORDS_PER_RECIPE as u64);
        push_str(&mut m, " (ADR 0016 \u{a7}Consequences). Likely cause: the iterator selector matches too broadly (every link rather than every card), or the source is a pagination-shaped listing whose first page already exceeds the cap. Refine the selector to target distinct cards, or pick a narrower listing endpoint.");
        return Err(ApplyError::Extraction { mode: "css_select", reason: string_of(m.as_slice()) });
    }
    let ghost leaves = values.deep_view();
    let mut records: Vec<AppliedRecord> = Vec::new();
    let mut n: usize = 0;
    assert(records@.map_values(|a: AppliedRecord| a@) =~= Seq::<AppliedView>::empty());
    while n < count
        invariant
            n <= count,
            count == values.len(),
            leaves == values.deep_view(),
            css_outer_count(html@, iter_selector@) == Some(count as nat),
            outcome@ == CssLeavesView::Leaves(leaves),
            0 < count <= MAX_RECORDS_PER_RECIPE,
            spec_css_records(*recipe, html@, iter_selector@, opt_str_view(inner_attribute), leaves, n as int) == Ok::<
                Seq<AppliedView>,
                ApplyFailure,
            >(records@.map_values(|a: AppliedRecord| a@)),
        decreases count - n,
    {
        assert(leaves[n as int] == values@[n as int].deep_view());
        let x = match css_within(&values[n], inner_attribute) {
            Err(e) => {
                proof {
                    lemma_records_err(*recipe, html@, iter_selector@, opt_str_view(inner_attribute), leaves, n + 1, count as int);
                }
                return Err(e);
            },
            Ok(x) => x,
        };
        let recs = match css_bindings(recipe, html, iter_selector, n, &x, count) {
            Err(e) => {
                proof {
                    lemma_records_err(*recipe, html@, iter_selector@, opt_str_view(inner_attribute), leaves, n + 1, count as int);
                }
                return Err(e);
            },
            Ok(v) => v,
        };
        let ghost before = records@.map_values(|a: AppliedRecord| a@);
        let ghost added = recs@.map_values(|a: AppliedRecord| a@);
        let mut recs = recs;
        records.append(&mut recs);
        proof {
            assert(records@.map_values(|a: AppliedRecord| a@) =~= before + added);
        }
        n += 1;
    }
    Ok(records)
}

// ---------------------------------------------------------------------------
// The JSON iterator runtime
// ---------------------------------------------------------------------------

/// What the inner path gives within one outer match: the first non-null
/// node's text, within the scalar bound.
pub open spec fn spec_json_within(scope: Result<Seq<(bool, Seq<char>)>, Seq<char>>, path: Seq<char>) -> Result<Seq<char>, Seq<char>> {
    match scope {
        Err(d) => Err("inner path query failed: "@ + d),
        Ok(nodes) => if nodes.len() == 0 {
            Err("inner path "@ + debug_str(path) + " matched no nodes within scope"@)
        } else {
            match first_non_null(nodes) {
                Some(t) => spec_bound(t),
                None => Err("inner path "@ + debug_str(path) + " matched "@ + decimal(nodes.len()) + " node(s), all JSON null"@),
            }
        },
    }
}

/// The inner extractions of the first `j` field maps of binding `idx`
/// within outer match `m` of a JSON iterator.
pub open spec fn spec_json_inner_fold(
    bytes: Seq<u8>,
    outer: Seq<char>,
    fms: Seq<FieldMap>,
    idx: nat,
    tagged: bool,
    m: int,
    j: int,
) -> Result<Seq<(Seq<char>, Seq<char>)>, ApplyFailure>
    decreases j,
{
    if j <= 0 {
        Ok(Seq::empty())
    } else {
        match spec_json_inner_fold(bytes, outer, fms, idx, tagged, m, j - 1) {
            Err(e) => Err(e),
            Ok(prev) => {
                let fm = fms[j - 1];
                match fm.source {
                    FieldValueSource::ExtractedInner { spec } => match spec {
                        ExtractionSpec::JsonPath { path } => match json_scoped_nodes(bytes, outer, path@) {
                            JsonLeavesView::Leaves(w) => match spec_json_within(w[m], path@) {
                                Err(r) => Err(
                                    ApplyFailure::Extraction(
                                        "json_path"@,
                                        inner_lead(tagged, idx, fm.path@) + ": "@ + r,
                                    ),
                                ),
                                Ok(leaf) => Ok(pairs_put(prev, fm.path@, leaf)),
                            },
                            _ => Err(ApplyFailure::Extraction("json_path"@, Seq::empty())),
                        },
                        other => Err(
                            ApplyFailure::NotImplemented(
                                "extracted_inner"@,
                                "FieldMap "@ + debug_str(fm.path@) + ": ExtractedInner sub-spec mode "@ + spec_mode_name(
                                    other,
                                )
                                    + " is not supported in Phase 2A inside a json_path scope. The validator should have rejected this at authoring time (ADR 0019 rule (iv)); the row may be a hand-edit or pre-validation legacy."@,
                            ),
                        ),
                    },
                    _ => Ok(prev),
                }
            },
        }
    }
}

/// The inner extractions of binding `idx` within outer match `m`.
pub open spec fn spec_json_inner(bytes: Seq<u8>, outer: Seq<char>, b: ProductionBinding, idx: nat, tagged: bool, m: int) -> Result<
    Option<Seq<(Seq<char>, Seq<char>)>>,
    ApplyFailure,
> {
    if !needs_inner(b) {
        Ok(None)
    } else {
        match spec_json_inner_fold(bytes, outer, b.field_mappings@, idx, tagged, m, b.field_mappings@.len() as int) {
            Ok(p) => Ok(Some(p)),
            Err(e) => Err(e),
        }
    }
}

/// The records of the first `k` bindings for outer match `m`.
pub open spec fn spec_json_bindings(recipe: FetchRecipe, bytes: Seq<u8>, outer: Seq<char>, m: int, x: Seq<char>, k: int) -> Result<
    Seq<AppliedView>,
    ApplyFailure,
>
    decreases k,
{
    if k <= 0 {
        Ok(Seq::empty())
    } else {
        match spec_json_bindings(recipe, bytes, outer, m, x, k - 1) {
            Err(e) => Err(e),
            Ok(prev) => {
                let b = recipe.produces@[k - 1];
                match spec_json_inner(bytes, outer, b, (k - 1) as nat, true, m) {
                    Err(e) => Err(e),
                    Ok(inner) => match spec_dedup_key(b, x, inner, recipe.id@) {
                        Err(r) => Err(ApplyFailure::FieldMapping(r)),
                        Ok(key) => Ok(
                            prev.push(AppliedView { binding_index: (k - 1) as nat, extracted: x, inner, dedup_key: key }),
                        ),
                    },
                }
            },
        }
    }
}

/// The records of the first `n` outer matches.
pub open spec fn spec_json_records(
    recipe: FetchRecipe,
    bytes: Seq<u8>,
    outer: Seq<char>,
    inner_path: Seq<char>,
    scopes: Seq<Result<Seq<(bool, Seq<char>)>, Seq<char>>>,
    n: int,
) -> Result<Seq<AppliedView>, ApplyFailure>
    decreases n,
{
    if n <= 0 {
        Ok(Seq::empty())
    } else {
        match spec_json_records(recipe, bytes, outer, inner_path, scopes, n - 1) {
            Err(e) => Err(e),
            Ok(prev) => match spec_json_within(scopes[n - 1], inner_path) {
                Err(r) => Err(ApplyFailure::Extraction("json_path"@, r)),
                Ok(x) => match spec_json_bindings(recipe, bytes, outer, n - 1, x, recipe.produces@.len() as int) {
                    Err(e) => Err(e),
                    Ok(recs) => Ok(prev + recs),
                },
            },
        }
    }
}

/// The JSON iterator cap's reason.
pub open spec fn json_cap_reason(outer: Seq<char>, n: nat) -> Seq<char> {
    "iterator path "@ + debug_str(outer) + " matched "@ + decimal(n) + " elements; cap is "@ + decimal(
        MAX_RECORDS_PER_RECIPE as nat,
    )
        + " (ADR 0016 \u{a7}Consequences). Likely cause: the iterator path matches too broadly (every value rather than every row), or the source is a paginated API whose first page already exceeds the cap. Session 68: OData-shaped URLs (presence of $select|$filter|$orderby, or an /api/open/vN/ path) are auto-capped at fetch time; if you're still seeing this, the URL didn't match those shapes and the recipe's iterator/URL needs an explicit narrowing (a JsonPath filter expression, or a more specific URL)."@
}

/// What applying a JSON iterator recipe gives: per outer match (at most
/// `MAX_RECORDS_PER_RECIPE`), the inner path's first non-null value,
/// then per binding its inner extractions and dedup key.
pub open spec fn spec_apply_json_iterator(recipe: FetchRecipe, bytes: Seq<u8>, outer: Seq<char>, inner: Seq<char>) -> Result<
    Seq<AppliedView>,
    ApplyFailure,
> {
    spec_json_iterator_outcome(recipe, bytes, outer, inner, json_scoped_nodes(bytes, outer, inner))
}

/// What a JSON iterator recipe gives from the outcome `o` of querying
/// `bytes` with the outer path and, within each match, the inner path:
/// the query's errors, no match, more matches than
/// `MAX_RECORDS_PER_RECIPE`, or the records of every match.
pub open spec fn spec_json_iterator_outcome(
    recipe: FetchRecipe,
    bytes: Seq<u8>,
    outer: Seq<char>,
    inner: Seq<char>,
    o: JsonLeavesView,
) -> Result<Seq<AppliedView>, ApplyFailure> {
    match o {
        JsonLeavesView::NotJson(d) => Err(ApplyFailure::Extraction("json_path"@, "bytes did not parse as JSON: "@ + d)),
        JsonLeavesView::BadOuter(d) => Err(ApplyFailure::Extraction("json_path"@, "iterator path query failed: "@ + d)),
        JsonLeavesView::Leaves(v) => if v.len() == 0 {
            Err(
                ApplyFailure::Extraction(
                    "json_path"@,
                    "iterator path "@ + debug_str(outer)
                        + " matched no nodes (the source may have changed shape, or the path is targeting the wrong array)"@,
                ),
            )
        } else if v.len() > MAX_RECORDS_PER_RECIPE {
            Err(ApplyFailure::Extraction("json_path"@, json_cap_reason(outer, v.len())))
        } else {
            spec_json_records(recipe, bytes, outer, inner, v, v.len() as int)
        },
    }
}

proof fn lemma_json_fold_err(bytes: Seq<u8>, outer: Seq<char>, fms: Seq<FieldMap>, idx: nat, tagged: bool, m: int, j: int, k: int)
    requires
        j <= k,
        spec_json_inner_fold(bytes, outer, fms, idx, tagged, m, j) is Err,
    ensures
        spec_json_inner_fold(bytes, outer, fms, idx, tagged, m, k) == spec_json_inner_fold(bytes, outer, fms, idx, tagged, m, j),
    decreases k - j,
{
    if j < k {
        lemma_json_fold_err(bytes, outer, fms, idx, tagged, m, j, k - 1);
    }
}

proof fn lemma_json_bindings_err(recipe: FetchRecipe, bytes: Seq<u8>, outer: Seq<char>, m: int, x: Seq<char>, j: int, k: int)
    requires
        j <= k,
        spec_json_bindings(recipe, bytes, outer, m, x, j) is Err,
    ensures
        spec_json_bindings(recipe, bytes, outer, m, x, k) == spec_json_bindings(recipe, bytes, outer, m, x, j),
    decreases k - j,
{
    if j < k {
        lemma_json_bindings_err(recipe, bytes, outer, m, x, j, k - 1);
    }
}

proof fn lemma_json_records_err(
    recipe: FetchRecipe,
    bytes: Seq<u8>,
    outer: Seq<char>,
    inner_path: Seq<char>,
    scopes: Seq<Result<Seq<(bool, Seq<char>)>, Seq<char>>>,
    j: int,
    k: int,
)
    requires
        j <= k,
        spec_json_records(recipe, bytes, outer, inner_path, scopes, j) is Err,
    ensures
        spec_json_records(recipe, bytes, outer, inner_path, scopes, k) == spec_json_records(recipe, bytes, outer, inner_path, scopes, j),
    decreases k - j,
{
    if j < k {
        lemma_json_records_err(recipe, bytes, outer, inner_path, scopes, j, k - 1);
    }
}

fn json_within(scope: &ScopeNodes, path: &str) -> (r: Result<String, ApplyError>)
    ensures
        outcome_matches(r, spec_json_within(scope.deep_view(), path@), "json_path"@),
{
    match scope {
        ScopeNodes::Failed { detail } => {
            let mut m: Vec<char> = Vec::new();
            push_str(&mut m, "inner path query failed: ");
            push_str(&mut m, detail.as_str());
            extraction_error("json_path", m)
        },
        ScopeNodes::Nodes { nodes } => {
            let quoted = debug_quoted(path);
            if nodes.len() == 0 {
                let mut m: Vec<char> = Vec::new();
                push_str(&mut m, "inner path ");
                push_str(&mut m, quoted.as_str());
                push_str(&mut m, " matched no nodes within scope");
                return extraction_error("json_path", m);
            }
            let ghost dv = nodes.deep_view();
            let mut k: usize = 0;
            assert(dv.subrange(0, dv.len() as int) =~= dv);
            while k < nodes.len()
                invariant
                    k <= nodes.len(),
                    dv == nodes.deep_view(),
                    scope.deep_view() == Ok::<Seq<(bool, Seq<char>)>, Seq<char>>(dv),
                    dv.len() > 0,
                    first_non_null(dv) == first_non_null(dv.subrange(k as int, dv.len() as int)),
                decreases nodes.len() - k,
            {
                assert(dv[k as int] == nodes@[k as int]@);
                if !nodes[k].is_null {
                    let t = node_text(&nodes[k]);
                    assert(dv.subrange(k as int, dv.len() as int)[0] == dv[k as int]);
                    assert(first_non_null(dv) == Some(t@));
                    return bound_extracted(t, "json_path");
                }
                assert(dv.subrange(k as int, dv.len() as int).drop_first() =~= dv.subrange(k + 1, dv.len() as int));
                k += 1;
            }
            let mut m: Vec<char> = Vec::new();
            push_str(&mut m, "inner path ");
            push_str(&mut m, quoted.as_str());
            push_str(&mut m, " matched ");
            push_decimal(&mut m, nodes.len() as u64);
            push_str(&mut m, " node(s), all JSON null");
            extraction_error("json_path", m)
        },
    }
}

fn json_inner(bytes: &[u8], outer: &str, b: &ProductionBinding, idx: usize, tagged: bool, m: usize, count: usize) -> (r: Result<
    Option<Vec<(String, String)>>,
    ApplyError,
>)
    requires
        json_outer_count(bytes@, outer@) == Some(count as nat),
        m < count,
    ensures
        match spec_json_inner(bytes@, outer@, *b, idx as nat, tagged, m as int) {
            Ok(Some(p)) => r matches Ok(Some(v)) && pairs_view(v) == p,
            Ok(None) => r matches Ok(None),
            Err(f) => r matches Err(e) && failure_is(e, f),
        },
{
    let mut any = false;
    let mut q: usize = 0;
    while q < b.field_mappings.len()
        invariant
            q <= b.field_mappings.len(),
            any == exists|j: int| 0 <= j < q && (#[trigger] b.field_mappings@[j]).source is ExtractedInner,
        decreases b.field_mappings.len() - q,
    {
        if let FieldValueSource::ExtractedInner { .. } = &b.field_mappings[q].source {
            any = true;
        }
        q += 1;
    }
    if !any {
        return Ok(None);
    }
    let mut acc: Vec<(String, String)> = Vec::new();
    let mut j: usize = 0;
    assert(pairs_view(acc) =~= Seq::<(Seq<char>, Seq<char>)>::empty());
    while j < b.field_mappings.len()
        invariant
            j <= b.field_mappings.len(),
            needs_inner(*b),
            json_outer_count(bytes@, outer@) == Some(count as nat),
            m < count,
            spec_json_inner_fold(bytes@, outer@, b.field_mappings@, idx as nat, tagged, m as int, j as int) == Ok::<
                Seq<(Seq<char>, Seq<char>)>,
                ApplyFailure,
            >(pairs_view(acc)),
        decreases b.field_mappings.len() - j,
    {
        let fm = &b.field_mappings[j];
        if let FieldValueSource::ExtractedInner { spec } = &fm.source {
            match spec {
                ExtractionSpec::JsonPath { path } => {
                    match query_json_leaves(bytes, outer, path.as_str()) {
                        JsonLeavesOutcome::Leaves { scopes } => {
                            assert(scopes.deep_view()[m as int] == scopes@[m as int].deep_view());
                            match json_within(&scopes[m], path.as_str()) {
                                Err(e) => {
                                    let reason = match e {
                                        ApplyError::Extraction { reason, .. } => reason,
                                        _ => String::new(),
                                    };
                                    let mut msg: Vec<char> = Vec::new();
                                    push_inner_lead_tag(&mut msg, tagged, idx);
                                    push_str(&mut msg, "FieldMap ");
                                    push_str(&mut msg, debug_quoted(fm.path.as_str()).as_str());
                                    push_str(&mut msg, ": ");
                                    push_str(&mut msg, reason.as_str());
                                    proof {
                                        lemma_json_fold_err(bytes@, outer@, b.field_mappings@, idx as nat, tagged, m as int, j + 1, b.field_mappings@.len() as int);
                                    }
                                    return failure(ApplyError::Extraction { mode: "json_path", reason: string_of(msg.as_slice()) });
                                },
                                Ok(leaf) => {
                                    put_pair(&mut acc, &fm.path, leaf);
                                },
                            }
                        },
                        _ => {
                            assert(false);
                            return failure(ApplyError::Extraction { mode: "json_path", reason: String::new() });
                        },
                    }
                },
                other => {
                    let mut msg: Vec<char> = Vec::new();
                    push_str(&mut msg, "FieldMap ");
                    push_str(&mut msg, debug_quoted(fm.path.as_str()).as_str());
                    push_str(&mut msg, ": ExtractedInner sub-spec mode ");
                    push_str(&mut msg, mode_name(other));
                    push_str(&mut msg, " is not supported in Phase 2A inside a json_path scope. The validator should have rejected this at authoring time (ADR 0019 rule (iv)); the row may be a hand-edit or pre-validation legacy.");
                    proof {
                        lemma_json_fold_err(bytes@, outer@, b.field_mappings@, idx as nat, tagged, m as int, j + 1, b.field_mappings@.len() as int);
                    }
                    return failure(ApplyError::NotImplemented { mode: "extracted_inner", reason: string_of(msg.as_slice()) });
                },
            }
        }
        j += 1;
    }
    Ok(Some(acc))
}

fn json_bindings(recipe: &FetchRecipe, bytes: &[u8], outer: &str, m: usize, x: &String, count: usize) -> (r: Result<
    Vec<AppliedRecord>,
    ApplyError,
>)
    requires
        json_outer_count(bytes@, outer@) == Some(count as nat),
        m < count,
    ensures
        applied_matches(r, spec_json_bindings(*recipe, bytes@, outer@, m as int, x@, recipe.produces@.len() as int)),
{
    let mut out: Vec<AppliedRecord> = Vec::new();
    let mut k: usize = 0;
    assert(out@.map_values(|a: AppliedRecord| a@) =~= Seq::<AppliedView>::empty());
    while k < recipe.produces.len()
        invariant
            k <= recipe.produces.len(),
            json_outer_count(bytes@, outer@) == Some(count as nat),
            m < count,
            spec_json_bindings(*recipe, bytes@, outer@, m as int, x@, k as int) == Ok::<Seq<AppliedView>, ApplyFailure>(
                out@.map_values(|a: AppliedRecord| a@),
            ),
        decreases recipe.produces.len() - k,
    {
        let b = &recipe.produces[k];
        let inner = match json_inner(bytes, outer, b, k, true, m, count) {
            Err(e) => {
                proof {
                    lemma_json_bindings_err(*recipe, bytes@, outer@, m as int, x@, k + 1, recipe.produces@.len() as int);
                }
                return Err(e);
            },
            Ok(i) => i,
        };
        let key = match compute_dedup_key(b, x.as_str(), inner.as_ref(), recipe.id.as_str()) {
            Err(e) => {
                proof {
                    lemma_json_bindings_err(*recipe, bytes@, outer@, m as int, x@, k + 1, recipe.produces@.len() as int);
                }
                return Err(e);
            },
            Ok(k2) => k2,
        };
        let rec = AppliedRecord { binding_index: k, extracted: x.clone(), inner, dedup_key: key };
        let ghost before = out@.map_values(|a: AppliedRecord| a@);
        out.push(rec);
        proof {
            assert(out@.map_values(|a: AppliedRecord| a@) =~= before.push(rec@));
        }
        k += 1;
    }
    Ok(out)
}

/// Apply a `json_path` × `json_path` iterator recipe to fetched bytes:
/// each node the iterator path matches (at most `MAX_RECORDS_PER_RECIPE`)
/// yields, per binding, a record with the inner path's first non-null
/// value, the binding's inner extractions within that node and its dedup
/// key. The first failure ends the run.
pub fn apply_json_iterator(recipe: &FetchRecipe, bytes: &[u8], iter_path: &str, inner_path: &str) -> (r: Result<
    Vec<AppliedRecord>,
    ApplyError,
>)
    ensures
        applied_matches(r, spec_apply_json_iterator(*recipe, bytes@, iter_path@, inner_path@)),
{
    let outcome = query_json_leaves(bytes, iter_path, inner_path);
    json_iterator_records(recipe, bytes, iter_path, inner_path, &outcome)
}

/// The records of a JSON iterator recipe, from the outcome of querying
/// `bytes` with `iter_path` and, within each match, `inner_path`: each
/// match (at most `MAX_RECORDS_PER_RECIPE`) yields, per binding, a record
/// with the inner path's first non-null value, the binding's inner
/// extractions within that match and its dedup key. The first failure
/// ends the run.
pub fn json_iterator_records(
    recipe: &FetchRecipe,
    bytes: &[u8],
    iter_path: &str,
    inner_path: &str,
    outcome: &JsonLeavesOutcome,
) -> (r: Result<Vec<AppliedRecord>, ApplyError>)
    requires
        outcome@ matches JsonLeavesView::Leaves(v) ==> json_outer_count(bytes@, iter_path@) == Some(v.len()),
    ensures
        applied_matches(r, spec_json_iterator_outcome(*recipe, bytes@, iter_path@, inner_path@, outcome@)),
{
    let scopes = match outcome {
        JsonLeavesOutcome::NotJson { detail } => {
            let mut m: Vec<char> = Vec::new();
            push_str(&mut m, "bytes did not parse as JSON: ");
            push_str(&mut m, detail.as_str());
            return Err(ApplyError::Extraction { mode: "json_path", reason: string_of(m.as_slice()) });
        },
        JsonLeavesOutcome::BadOuter { detail } => {
            let mut m: Vec<char> = Vec::new();
            push_str(&mut m, "iterator path query failed: ");
            push_str(&mut m, detail.as_str());
            return Err(ApplyError::Extraction { mode: "json_path", reason: string_of(m.as_slice()) });
        },
        JsonLeavesOutcome::Leaves { scopes } => scopes,
    };
    let count = scopes.len();
    if count == 0 {
        let mut m: Vec<char> = Vec::new();
        push_str(&mut m, "iterator path ");
        push_str(&mut m, debug_quoted(iter_path).as_str());
        push_str(&mut m, " matched no nodes (the source may have changed shape, or the path is targeting the wrong array)");
        return Err(ApplyError::Extraction { mode: "json_path", reason: string_of(m.as_slice()) });
    }
    if count > MAX_RECORDS_PER_RECIPE {
        let mut m: Vec<char> = Vec::new();
        push_str(&mut m, "iterator path ");
        push_str(&mut m, debug_quoted(iter_path).as_str());
        push_str(&mut m, " matched ");
        push_decimal(&mut m, count as u64);
        push_str(&mut m, " elements; cap is ");
        push_decimal(&mut m, MAX_RECORDS_PER_RECIPE as u64);
        push_str(&mut m, " (ADR 0016 \u{a7}Consequences). Likely cause: the iterator path matches too broadly (every value rather than every row), or the source is a paginated API whose first page already exceeds the cap. Session 68: OData-shaped URLs (presence of $select|$filter|$orderby, or an /api/open/vN/ path) are auto-capped at fetch time; if you're still seeing this, the URL didn't match those shapes and the recipe's iterator/URL needs an explicit narrowing (a JsonPath filter expression, or a more specific URL).");
        return Err(ApplyError::Extraction { mode: "json_path", reason: string_of(m.as_slice()) });
    }
    let ghost views = scopes.deep_view();
    let mut records: Vec<AppliedRecord> = Vec::new();
    let mut n: usize = 0;
    assert(records@.map_values(|a: AppliedRecord| a@) =~= Seq::<AppliedView>::empty());
    while n < count
        invariant
            n <= count,
            count == scopes.len(),
            views == scopes.deep_view(),
            json_outer_count(bytes@, iter_path@) == Some(count as nat),
            outcome@ == JsonLeavesView::Leaves(views),
            0 < count <= MAX_RECORDS_PER_RECIPE,
            spec_json_records(*recipe, bytes@, iter_path@, inner_path@, views, n as int) == Ok::<Seq<AppliedView>, ApplyFailure>(
                records@.map_values(|a: AppliedRecord| a@),
            ),
        decreases count - n,
    {
        assert(views[n as int] == scopes@[n as int].deep_view());
        let x = match json_within(&scopes[n], inner_path) {
            Err(e) => {
                proof {
                    lemma_json_records_err(*recipe, bytes@, iter_path@, inner_path@, views, n + 1, count as int);
                }
                return Err(e);
            },
            Ok(x) => x,
        };
        let recs = match json_bindings(recipe, bytes, iter_path, n, &x, count) {
            Err(e) => {
                proof {
                    lemma_json_records_err(*recipe, bytes@, iter_path@, inner_path@, views, n + 1, count as int);
                }
                return Err(e);
            },
            Ok(v) => v,
        };
        let ghost before = records@.map_values(|a: AppliedRecord| a@);
        let ghost added = recs@.map_values(|a: AppliedRecord| a@);
        let mut recs = recs;
        records.append(&mut recs);
        proof {
            assert(records@.map_values(|a: AppliedRecord| a@) =~= before + added);
        }
        n += 1;
    }
    Ok(records)
}

/// The reason the runtime refuses an unsupported iterator pairing.
pub open spec fn unsupported_runtime_pair_reason(iter: ExtractionSpec, inner: ExtractionSpec) -> Seq<char> {
    "iterator runtime is wired for css_select \u{d7} css_select (ADR 0016 Phase 1) and json_path \u{d7} json_path (ADR 0019 Phase 2A). Got iter="@ + spec_mode_name(iter)
        + ", inner="@ + spec_mode_name(inner)
        + ". Other modes (csv_cell, pdf_table, regex_capture) are tracked for Phase 2B; until then, recipes against listing-shaped sources of those modes should decline at authoring time."@
}

/// What applying an iterator recipe with iterator extraction `iter`
/// gives: the CSS or JSON iterator runtime for a supported pairing.
pub open spec fn spec_apply_iterator(recipe: FetchRecipe, bytes: Seq<u8>, iter: ExtractionSpec) -> Result<Seq<AppliedView>, ApplyFailure> {
    match (iter, recipe.extraction) {
        (ExtractionSpec::CssSelect { selector: o, .. }, ExtractionSpec::CssSelect { selector: i, attribute }) => {
            spec_apply_css_iterator(recipe, bytes, o@, i@, opt_string_view(attribute))
        },
        (ExtractionSpec::JsonPath { path: o }, ExtractionSpec::JsonPath { path: i }) => spec_apply_json_iterator(recipe, bytes, o@, i@),
        (it, inner) => Err(ApplyFailure::NotImplemented("iterator"@, unsupported_runtime_pair_reason(it, inner))),
    }
}

/// Apply an iterator recipe: dispatch on the (iterator, inner) pairing.
pub fn apply_iterator(recipe: &FetchRecipe, bytes: &[u8], iter_spec: &ExtractionSpec) -> (r: Result<Vec<AppliedRecord>, ApplyError>)
    ensures
        applied_matches(r, spec_apply_iterator(*recipe, bytes@, *iter_spec)),
{
    match (iter_spec, &recipe.extraction) {
        (ExtractionSpec::CssSelect { selector: o, .. }, ExtractionSpec::CssSelect { selector: i, attribute }) => apply_css_iterator(
            recipe,
            bytes,
            o.as_str(),
            i.as_str(),
            opt_as_str(attribute),
        ),
        (ExtractionSpec::JsonPath { path: o }, ExtractionSpec::JsonPath { path: i }) => apply_json_iterator(
            recipe,
            bytes,
            o.as_str(),
            i.as_str(),
        ),
        (it, inner) => {
            let mut m: Vec<char> = Vec::new();
            push_str(&mut m, "iterator runtime is wired for css_select \u{d7} css_select (ADR 0016 Phase 1) and json_path \u{d7} json_path (ADR 0019 Phase 2A). Got iter=");
            push_str(&mut m, mode_name(it));
            push_str(&mut m, ", inner=");
            push_str(&mut m, mode_name(inner));
            push_str(&mut m, ". Other modes (csv_cell, pdf_table, regex_capture) are tracked for Phase 2B; until then, recipes against listing-shaped sources of those modes should decline at authoring time.");
            Err(ApplyError::NotImplemented { mode: "iterator", reason: string_of(m.as_slice()) })
        },
    }
}

// ---------------------------------------------------------------------------
// Numeric candidates
// ---------------------------------------------------------------------------

/// `s` begins with `p`.
pub open spec fn starts_with(s: Seq<char>, p: Seq<char>) -> bool {
    p.len() <= s.len() && s.take(p.len() as int) == p
}

/// `s` ends with `p`.
pub open spec fn ends_with(s: Seq<char>, p: Seq<char>) -> bool {
    p.len() <= s.len() && s.skip(s.len() - p.len()) == p
}

/// A leading marker removed, with the whitespace after it.
pub open spec fn strip_front(w: Seq<char>, m: Seq<char>) -> Seq<char> {
    if starts_with(w, m) {
        trim_start(w.skip(m.len() as int))
    } else {
        w
    }
}

/// A leading and then a trailing marker removed, with the whitespace
/// next to each.
pub open spec fn strip_both(w: Seq<char>, m: Seq<char>) -> Seq<char> {
    let a = strip_front(w, m);
    if ends_with(a, m) {
        trim_end(a.take(a.len() - m.len()))
    } else {
        a
    }
}

/// Estimate prefixes removed in order: `est. `, `est `, `~`, `≈`; then
/// `e ` before a digit, or `e` before a digit when a comma follows (which
/// rules out an exponent).
pub open spec fn strip_estimates(w: Seq<char>) -> Seq<char> {
    let a = strip_front(strip_front(strip_front(strip_front(w, "est. "@), "est "@), "~"@), "≈"@);
    if starts_with(a, "e "@) {
        let rest = a.skip(2);
        if rest.len() > 0 && is_ascii_digit(rest[0]) {
            trim_start(rest)
        } else {
            a
        }
    } else if starts_with(a, "e"@) {
        let rest = a.skip(1);
        if rest.contains(',') && rest.len() > 0 && is_ascii_digit(rest[0]) {
            rest
        } else {
            a
        }
    } else {
        a
    }
}

/// Index of the last `c` in `s[..n]`, or -1.
pub open spec fn last_of(s: Seq<char>, c: char, n: int) -> int
    decreases n,
{
    if n <= 0 {
        -1
    } else if s[n - 1] == c {
        n - 1
    } else {
        last_of(s, c, n - 1)
    }
}

/// Both separators present and the last comma after the last period:
/// the ambiguous European decimal-comma shape.
pub open spec fn eu_shaped(w: Seq<char>) -> bool {
    let c = last_of(w, ',', w.len() as int);
    let p = last_of(w, '.', w.len() as int);
    c >= 0 && p >= 0 && c > p
}

/// Currency markers removed, each where it leads and where it trails:
/// `$`, `€`, `£`, `¥`, `USD`, `EUR`, `usd`, `eur`.
pub open spec fn strip_currency(w: Seq<char>) -> Seq<char> {
    let a = strip_both(strip_both(strip_both(strip_both(w, "$"@), "€"@), "£"@), "¥"@);
    strip_both(strip_both(strip_both(strip_both(a, "USD"@), "EUR"@), "usd"@), "eur"@)
}

/// ASCII whitespace: space, tab, line feed, form feed, carriage return.
pub open spec fn is_ascii_ws(c: char) -> bool {
    c == ' ' || c == '\t' || c == '\n' || c == '\x0C' || c == '\r'
}

/// `s` without its ASCII whitespace.
pub open spec fn remove_ascii_ws(s: Seq<char>) -> Seq<char>
    decreases s.len(),
{
    if s.len() == 0 {
        s
    } else {
        remove_ascii_ws(s.drop_last()) + if is_ascii_ws(s.last()) {
            Seq::empty()
        } else {
            seq![s.last()]
        }
    }
}

/// The text a numeric candidate normalises to before it is parsed:
/// `None` for a blank candidate or the European decimal-comma shape;
/// otherwise the candidate with estimate prefixes, currency markers and
/// ASCII whitespace removed and canonical thousand separators dropped.
pub open spec fn spec_numeric_candidate(s: Seq<char>) -> Option<Seq<char>> {
    let t = trim(s);
    if t.len() == 0 {
        None
    } else {
        let w = strip_estimates(t);
        if eu_shaped(w) {
            None
        } else {
            let x = remove_ascii_ws(strip_currency(w));
            match spec_strip_thousands(x) {
                Some(y) => Some(y),
                None => Some(x),
            }
        }
    }
}

/// The longest leading run of digits, periods and signs.
pub open spec fn numeric_prefix_from(s: Seq<char>, i: int) -> Seq<char>
    decreases s.len() - i,
{
    if i < 0 || i >= s.len() {
        Seq::empty()
    } else if is_ascii_digit(s[i]) || s[i] == '.' || s[i] == '-' || s[i] == '+' {
        seq![s[i]] + numeric_prefix_from(s, i + 1)
    } else {
        Seq::empty()
    }
}

fn starts_with_exec(w: &Vec<char>, m: &Vec<char>) -> (r: bool)
    ensures
        r == starts_with(w@, m@),
{
    if m.len() > w.len() {
        return false;
    }
    let mut k: usize = 0;
    while k < m.len()
        invariant
            k <= m.len() <= w.len(),
            forall|j: int| 0 <= j < k ==> w@[j] == m@[j],
        decreases m.len() - k,
    {
        if w[k] != m[k] {
            assert(w@.take(m.len() as int)[k as int] != m@[k as int]);
            return false;
        }
        k += 1;
    }
    assert(w@.take(m.len() as int) =~= m@);
    true
}

fn ends_with_exec(w: &Vec<char>, m: &Vec<char>) -> (r: bool)
    ensures
        r == ends_with(w@, m@),
{
    if m.len() > w.len() {
        return false;
    }
    let off = w.len() - m.len();
    let mut k: usize = 0;
    while k < m.len()
        invariant
            k <= m.len() <= w.len(),
            off == w.len() - m.len(),
            forall|j: int| 0 <= j < k ==> w@[off + j] == m@[j],
        decreases m.len() - k,
    {
        if w[off + k] != m[k] {
            assert(w@.skip(off as int)[k as int] != m@[k as int]);
            return false;
        }
        k += 1;
    }
    assert(w@.skip(off as int) =~= m@);
    true
}

fn strip_front_exec(w: Vec<char>, m: &str) -> (r: Vec<char>)
    ensures
        r@ == strip_front(w@, m@),
{
    let mc = chars_of(m);
    if starts_with_exec(&w, &mc) {
        let rest = crate::strings::copy_range(w.as_slice(), mc.len(), w.len());
        assert(rest@ =~= w@.skip(mc.len() as int));
        trim_start_chars(rest.as_slice())
    } else {
        w
    }
}

fn strip_both_exec(w: Vec<char>, m: &str) -> (r: Vec<char>)
    ensures
        r@ == strip_both(w@, m@),
{
    let a = strip_front_exec(w, m);
    let mc = chars_of(m);
    if ends_with_exec(&a, &mc) {
        let head = crate::strings::copy_range(a.as_slice(), 0, a.len() - mc.len());
        assert(head@ =~= a@.take(a.len() - mc.len()));
        trim_end_chars(head.as_slice())
    } else {
        a
    }
}

fn strip_estimates_exec(w: Vec<char>) -> (r: Vec<char>)
    ensures
        r@ == strip_estimates(w@),
{
    let a = strip_front_exec(strip_front_exec(strip_front_exec(strip_front_exec(w, "est. "), "est "), "~"), "≈");
    let e_space = chars_of("e ");
    let e = chars_of("e");
    proof {
        reveal_strlit("e ");
        reveal_strlit("e");
    }
    if starts_with_exec(&a, &e_space) {
        let rest = crate::strings::copy_range(a.as_slice(), 2, a.len());
        assert(rest@ =~= a@.skip(2));
        if rest.len() > 0 && is_digit_exec(rest[0]) {
            return trim_start_chars(rest.as_slice());
        }
        a
    } else if starts_with_exec(&a, &e) {
        let rest = crate::strings::copy_range(a.as_slice(), 1, a.len());
        assert(rest@ =~= a@.skip(1));
        if contains_char(rest.as_slice(), ',') && rest.len() > 0 && is_digit_exec(rest[0]) {
            return rest;
        }
        a
    } else {
        a
    }
}

fn last_of_exec(s: &Vec<char>, c: char) -> (r: Option<usize>)
    ensures
        match r {
            Some(i) => last_of(s@, c, s@.len() as int) == i,
            None => last_of(s@, c, s@.len() as int) == -1,
        },
{
    let mut n: usize = s.len();
    while n > 0 && s[n - 1] != c
        invariant
            n <= s.len(),
            last_of(s@, c, s@.len() as int) == last_of(s@, c, n as int),
        decreases n,
    {
        n -= 1;
    }
    if n == 0 {
        None
    } else {
        Some(n - 1)
    }
}

fn remove_ascii_ws_exec(s: &Vec<char>) -> (r: Vec<char>)
    ensures
        r@ == remove_ascii_ws(s@),
{
    let mut out: Vec<char> = Vec::new();
    let mut k: usize = 0;
    assert(s@.take(0) =~= Seq::<char>::empty());
    while k < s.len()
        invariant
            k <= s.len(),
            out@ == remove_ascii_ws(s@.take(k as int)),
        decreases s.len() - k,
    {
        let c = s[k];
        assert(s@.take(k + 1).drop_last() =~= s@.take(k as int));
        if !(c == ' ' || c == '\t' || c == '\n' || c == '\x0C' || c == '\r') {
            out.push(c);
        }
        k += 1;
        assert(out@ =~= remove_ascii_ws(s@.take(k as int)));
    }
    assert(s@.take(s.len() as int) =~= s@);
    out
}

/// Normalise a numeric candidate to the text that is then parsed as a
/// number; `None` when the candidate is blank or European-shaped.
pub fn numeric_candidate_text(s: &str) -> (r: Option<String>)
    ensures
        match r {
            Some(t) => spec_numeric_candidate(s@) == Some(t@),
            None => spec_numeric_candidate(s@) is None,
        },
{
    let c = chars_of(s);
    let t = trim_chars(c.as_slice());
    if t.len() == 0 {
        return None;
    }
    let w = strip_estimates_exec(t);
    match (last_of_exec(&w, ','), last_of_exec(&w, '.')) {
        (Some(lc), Some(lp)) => {
            if lc > lp {
                return None;
            }
        },
        _ => {},
    }
    let x0 = strip_currency_exec(w);
    let x = remove_ascii_ws_exec(&x0);
    let text = string_of(x.as_slice());
    match strip_thousand_separator_commas(text.as_str()) {
        Some(y) => Some(y),
        None => Some(text),
    }
}

fn strip_currency_exec(w: Vec<char>) -> (r: Vec<char>)
    ensures
        r@ == strip_currency(w@),
{
    let a = strip_both_exec(strip_both_exec(strip_both_exec(strip_both_exec(w, "$"), "€"), "£"), "¥");
    strip_both_exec(strip_both_exec(strip_both_exec(strip_both_exec(a, "USD"), "EUR"), "usd"), "eur")
}

/// The longest leading run of digits, periods and signs of `s`, the
/// fallback parsed when a unit trails the number.
pub fn leading_numeric_prefix(s: &str) -> (r: String)
    ensures
        r@ == numeric_prefix_from(s@, 0),
{
    let c = chars_of(s);
    let mut k: usize = 0;
    while k < c.len() && (is_digit_exec(c[k]) || c[k] == '.' || c[k] == '-' || c[k] == '+')
        invariant
            k <= c.len(),
            c@ == s@,
            numeric_prefix_from(s@, 0) == c@.take(k as int) + numeric_prefix_from(s@, k as int),
        decreases c.len() - k,
    {
        assert(c@.take(k as int) + (seq![c@[k as int]] + numeric_prefix_from(s@, k + 1)) =~= c@.take(k + 1)
            + numeric_prefix_from(s@, k + 1));
        k += 1;
    }
    assert(c@.take(0) =~= Seq::<char>::empty());
    let p = crate::strings::copy_range(c.as_slice(), 0, k);
    assert(p@ =~= c@.take(k as int));
    assert(p@ + numeric_prefix_from(s@, k as int) =~= p@);
    string_of(p.as_slice())
}

// ---------------------------------------------------------------------------
// The scalar runtime and dispatch
// ---------------------------------------------------------------------------

/// What a scalar recipe yields before content assembly: its one
/// extracted scalar, and per binding, in order, that binding's inner
/// extractions (for bindings with inner field maps).
#[derive(Debug, Clone, PartialEq, Eq)]
pub struct ScalarApplied {
    pub extracted: String,
    pub inner: Vec<Option<Vec<(String, String)>>>,
}

/// Inner extractions as text pairs, where there are any.
pub open spec fn opt_pairs_view(o: Option<Vec<(String, String)>>) -> Option<Seq<(Seq<char>, Seq<char>)>> {
    match o {
        Some(v) => Some(pairs_view(v)),
        None => None,
    }
}

/// Some binding of the recipe has inner field maps.
pub open spec fn any_needs_inner(recipe: FetchRecipe) -> bool {
    exists|k: int| 0 <= k < recipe.produces@.len() && needs_inner(#[trigger] recipe.produces@[k])
}

/// The inner extractions of the first `k` bindings within outer CSS
/// match `m`.
pub open spec fn spec_css_scope_inners(recipe: FetchRecipe, html: Seq<char>, outer: Seq<char>, m: int, k: int) -> Result<
    Seq<Option<Seq<(Seq<char>, Seq<char>)>>>,
    ApplyFailure,
>
    decreases k,
{
    if k <= 0 {
        Ok(Seq::empty())
    } else {
        match spec_css_scope_inners(recipe, html, outer, m, k - 1) {
            Err(e) => Err(e),
            Ok(v) => match spec_css_inner(html, outer, recipe.produces@[k - 1], (k - 1) as nat, false, m) {
                Err(e) => Err(e),
                Ok(p) => Ok(v.push(p)),
            },
        }
    }
}

/// The inner extractions of the first `k` bindings within outer JSON
/// match `m`.
pub open spec fn spec_json_scope_inners(recipe: FetchRecipe, bytes: Seq<u8>, outer: Seq<char>, m: int, k: int) -> Result<
    Seq<Option<Seq<(Seq<char>, Seq<char>)>>>,
    ApplyFailure,
>
    decreases k,
{
    if k <= 0 {
        Ok(Seq::empty())
    } else {
        match spec_json_scope_inners(recipe, bytes, outer, m, k - 1) {
            Err(e) => Err(e),
            Ok(v) => match spec_json_inner(bytes, outer, recipe.produces@[k - 1], (k - 1) as nat, false, m) {
                Err(e) => Err(e),
                Ok(p) => Ok(v.push(p)),
            },
        }
    }
}

/// The position of the first node that is not JSON `null`.
pub open spec fn first_non_null_at(v: Seq<(bool, Seq<char>)>) -> Option<int>
    decreases v.len(),
{
    if v.len() == 0 {
        None
    } else {
        match first_non_null_at(v.drop_last()) {
            Some(i) => Some(i),
            None => if !v.last().0 {
                Some(v.len() - 1)
            } else {
                None
            },
        }
    }
}

/// The reason an outer mode other than CSS or JSON cannot scope inner
/// field maps.
pub open spec fn scalar_inner_mode_reason(spec: ExtractionSpec) -> Seq<char> {
    "scalar+multi-leaf bindings under outer mode "@ + spec_mode_name(spec)
        + " are not implemented in Phase 2A; supported outer modes are css_select and json_path (ADR 0019 \u{a7}\"Two-phase rollout\"). csv_cell / pdf_table / regex_capture defer to Phase 2B."@
}

/// The inner extractions of every binding of a scalar recipe, within the
/// scope of its extraction: the first element the CSS selector matches,
/// or the first non-null node the JSON path matches.
pub open spec fn spec_scalar_inner(recipe: FetchRecipe, bytes: Seq<u8>) -> Result<
    Seq<Option<Seq<(Seq<char>, Seq<char>)>>>,
    ApplyFailure,
> {
    let n = recipe.produces@.len() as int;
    match recipe.extraction {
        ExtractionSpec::CssSelect { selector, .. } => if !valid_utf8(bytes) {
            Err(ApplyFailure::Extraction("css_select"@, not_utf8_reason(bytes)))
        } else {
            let html = decode_utf8(bytes);
            match css_outer_count(html, selector@) {
                None => Err(
                    ApplyFailure::Extraction(
                        "css_select"@,
                        "outer selector did not parse (scalar+multi-leaf scope): "@ + css_selector_error(selector@),
                    ),
                ),
                Some(c) => if c == 0 {
                    Err(
                        ApplyFailure::Extraction(
                            "css_select"@,
                            "outer selector "@ + debug_str(selector@)
                                + " matched no elements; scalar+multi-leaf bindings need an outer scope (ADR 0019 \u{a7}\"Semantics, by recipe shape\")"@,
                        ),
                    )
                } else {
                    spec_css_scope_inners(recipe, html, selector@, 0, n)
                },
            }
        },
        ExtractionSpec::JsonPath { path } => match json_path_query(bytes, path@) {
            JsonQueryView::NotJson(d) => Err(ApplyFailure::Extraction("json_path"@, "bytes did not parse as JSON: "@ + d)),
            JsonQueryView::BadPath(d) => Err(ApplyFailure::Extraction("json_path"@, "outer path query failed: "@ + d)),
            JsonQueryView::Matched(v) => match first_non_null_at(v) {
                None => Err(
                    ApplyFailure::Extraction(
                        "json_path"@,
                        "outer path "@ + debug_str(path@)
                            + " matched no non-null nodes; scalar+multi-leaf bindings need an outer scope (ADR 0019 \u{a7}\"Semantics, by recipe shape\")"@,
                    ),
                ),
                Some(m) => spec_json_scope_inners(recipe, bytes, path@, m, n),
            },
        },
        other => Err(ApplyFailure::NotImplemented("extracted_inner"@, scalar_inner_mode_reason(other))),
    }
}

/// A scalar recipe applied: the extraction first, then, where a binding
/// has inner field maps, every binding's inner extractions; otherwise no
/// binding has any.
pub open spec fn spec_apply_scalar(
    recipe: FetchRecipe,
    bytes: Seq<u8>,
    pdf_text: Result<Seq<Seq<char>>, Seq<char>>,
) -> Result<(Seq<char>, Seq<Option<Seq<(Seq<char>, Seq<char>)>>>), ApplyFailure> {
    match spec_extract(recipe.extraction, bytes, pdf_text) {
        Err(reason) => Err(ApplyFailure::Extraction(spec_mode_name(recipe.extraction), reason)),
        Ok(x) => if any_needs_inner(recipe) {
            match spec_scalar_inner(recipe, bytes) {
                Err(e) => Err(e),
                Ok(v) => Ok((x, v)),
            }
        } else {
            Ok((x, Seq::new(recipe.produces@.len(), |k: int| None)))
        },
    }
}

/// `r` is the scalar outcome `expected`.
pub open spec fn scalar_matches(
    r: Result<ScalarApplied, ApplyError>,
    expected: Result<(Seq<char>, Seq<Option<Seq<(Seq<char>, Seq<char>)>>>), ApplyFailure>,
) -> bool {
    match expected {
        Ok((x, v)) => r matches Ok(a) && a.extracted@ == x && a.inner@.map_values(|o: Option<Vec<(String, String)>>| opt_pairs_view(o)) == v,
        Err(f) => r matches Err(e) && failure_is(e, f),
    }
}

proof fn lemma_css_scope_inners_err(recipe: FetchRecipe, html: Seq<char>, outer: Seq<char>, m: int, j: int, k: int)
    requires
        0 <= j <= k,
        spec_css_scope_inners(recipe, html, outer, m, j) is Err,
    ensures
        spec_css_scope_inners(recipe, html, outer, m, k) == spec_css_scope_inners(recipe, html, outer, m, j),
    decreases k - j,
{
    if j < k {
        lemma_css_scope_inners_err(recipe, html, outer, m, j, k - 1);
    }
}

proof fn lemma_json_scope_inners_err(recipe: FetchRecipe, bytes: Seq<u8>, outer: Seq<char>, m: int, j: int, k: int)
    requires
        0 <= j <= k,
        spec_json_scope_inners(recipe, bytes, outer, m, j) is Err,
    ensures
        spec_json_scope_inners(recipe, bytes, outer, m, k) == spec_json_scope_inners(recipe, bytes, outer, m, j),
    decreases k - j,
{
    if j < k {
        lemma_json_scope_inners_err(recipe, bytes, outer, m, j, k - 1);
    }
}

fn css_scope_inners(recipe: &FetchRecipe, html: &str, outer: &str, count: usize) -> (r: Result<
    Vec<Option<Vec<(String, String)>>>,
    ApplyError,
>)
    requires
        css_outer_count(html@, outer@) == Some(count as nat),
        0 < count,
    ensures
        match spec_css_scope_inners(*recipe, html@, outer@, 0, recipe.produces@.len() as int) {
            Ok(v) => r matches Ok(x) && x@.map_values(|o: Option<Vec<(String, String)>>| opt_pairs_view(o)) == v,
            Err(f) => r matches Err(e) && failure_is(e, f),
        },
{
    let mut out: Vec<Option<Vec<(String, String)>>> = Vec::new();
    let mut k: usize = 0;
    assert(out@.map_values(|o: Option<Vec<(String, String)>>| opt_pairs_view(o)) =~= Seq::empty());
    while k < recipe.produces.len()
        invariant
            k <= recipe.produces@.len(),
            css_outer_count(html@, outer@) == Some(count as nat),
            0 < count,
            spec_css_scope_inners(*recipe, html@, outer@, 0, k as int) == Ok::<Seq<Option<Seq<(Seq<char>, Seq<char>)>>>, ApplyFailure>(
                out@.map_values(|o: Option<Vec<(String, String)>>| opt_pairs_view(o)),
            ),
        decreases recipe.produces@.len() - k,
    {
        let inner = match css_inner(html, outer, &recipe.produces[k], k, false, 0, count) {
            Err(e) => {
                proof {
                    lemma_css_scope_inners_err(*recipe, html@, outer@, 0, k + 1, recipe.produces@.len() as int);
                }
                return Err(e);
            },
            Ok(i) => i,
        };
        let ghost before = out@.map_values(|o: Option<Vec<(String, String)>>| opt_pairs_view(o));
        let ghost iv = opt_pairs_view(inner);
        out.push(inner);
        assert(out@.map_values(|o: Option<Vec<(String, String)>>| opt_pairs_view(o)) =~= before.push(iv));
        k += 1;
    }
    Ok(out)
}

fn json_scope_inners(recipe: &FetchRecipe, bytes: &[u8], outer: &str, m: usize, count: usize) -> (r: Result<
    Vec<Option<Vec<(String, String)>>>,
    ApplyError,
>)
    requires
        json_outer_count(bytes@, outer@) == Some(count as nat),
        m < count,
    ensures
        match spec_json_scope_inners(*recipe, bytes@, outer@, m as int, recipe.produces@.len() as int) {
            Ok(v) => r matches Ok(x) && x@.map_values(|o: Option<Vec<(String, String)>>| opt_pairs_view(o)) == v,
            Err(f) => r matches Err(e) && failure_is(e, f),
        },
{
    let mut out: Vec<Option<Vec<(String, String)>>> = Vec::new();
    let mut k: usize = 0;
    assert(out@.map_values(|o: Option<Vec<(String, String)>>| opt_pairs_view(o)) =~= Seq::empty());
    while k < recipe.produces.len()
        invariant
            k <= recipe.produces@.len(),
            json_outer_count(bytes@, outer@) == Some(count as nat),
            m < count,
            spec_json_scope_inners(*recipe, bytes@, outer@, m as int, k as int) == Ok::<Seq<Option<Seq<(Seq<char>, Seq<char>)>>>, ApplyFailure>(
                out@.map_values(|o: Option<Vec<(String, String)>>| opt_pairs_view(o)),
            ),
        decreases recipe.produces@.len() - k,
    {
        let inner = match json_inner(bytes, outer, &recipe.produces[k], k, false, m, count) {
            Err(e) => {
                proof {
                    lemma_json_scope_inners_err(*recipe, bytes@, outer@, m as int, k + 1, recipe.produces@.len() as int);
                }
                return Err(e);
            },
            Ok(i) => i,
        };
        let ghost before = out@.map_values(|o: Option<Vec<(String, String)>>| opt_pairs_view(o));
        let ghost iv = opt_pairs_view(inner);
        out.push(inner);
        assert(out@.map_values(|o: Option<Vec<(String, String)>>| opt_pairs_view(o)) =~= before.push(iv));
        k += 1;
    }
    Ok(out)
}

fn binding_needs_inner(b: &ProductionBinding) -> (r: bool)
    ensures
        r == needs_inner(*b),
{
    let mut q: usize = 0;
    while q < b.field_mappings.len()
        invariant
            q <= b.field_mappings.len(),
            forall|j: int| 0 <= j < q ==> !((#[trigger] b.field_mappings@[j]).source is ExtractedInner),
        decreases b.field_mappings.len() - q,
    {
        if let FieldValueSource::ExtractedInner { .. } = &b.field_mappings[q].source {
            return true;
        }
        q += 1;
    }
    false
}

fn recipe_needs_inner(recipe: &FetchRecipe) -> (r: bool)
    ensures
        r == any_needs_inner(*recipe),
{
    let mut k: usize = 0;
    while k < recipe.produces.len()
        invariant
            k <= recipe.produces@.len(),
            forall|j: int| 0 <= j < k ==> !needs_inner(#[trigger] recipe.produces@[j]),
        decreases recipe.produces@.len() - k,
    {
        if binding_needs_inner(&recipe.produces[k]) {
            return true;
        }
        k += 1;
    }
    false
}

proof fn lemma_first_non_null_extend(v: Seq<(bool, Seq<char>)>, j: int, k: int)
    requires
        0 <= j <= k <= v.len(),
        first_non_null_at(v.take(j)) is Some,
    ensures
        first_non_null_at(v.take(k)) == first_non_null_at(v.take(j)),
    decreases k - j,
{
    if j < k {
        lemma_first_non_null_extend(v, j, k - 1);
        assert(v.take(k).drop_last() =~= v.take(k - 1));
    }
}

fn extraction_err<T>(mode: &'static str, reason: Vec<char>) -> (r: Result<T, ApplyError>)
    ensures
        r matches Err(ApplyError::Extraction { mode: m, reason: x }) && m == mode && x@ == reason@,
{
    Err(ApplyError::Extraction { mode, reason: string_of(reason.as_slice()) })
}

fn scalar_inner(recipe: &FetchRecipe, bytes: &[u8]) -> (r: Result<Vec<Option<Vec<(String, String)>>>, ApplyError>)
    ensures
        match spec_scalar_inner(*recipe, bytes@) {
            Ok(v) => r matches Ok(x) && x@.map_values(|o: Option<Vec<(String, String)>>| opt_pairs_view(o)) == v,
            Err(f) => r matches Err(e) && failure_is(e, f),
        },
{
    match &recipe.extraction {
        ExtractionSpec::CssSelect { selector, .. } => {
            let html = match utf8_str(bytes) {
                Ok(h) => h,
                Err(e) => {
                    let mut m: Vec<char> = Vec::new();
                    push_str(&mut m, "bytes were not UTF-8: ");
                    push_str(&mut m, e.as_str());
                    return extraction_err("css_select", m);
                },
            };
            match count_css_matches(html.as_str(), selector.as_str()) {
                Err(d) => {
                    let mut m: Vec<char> = Vec::new();
                    push_str(&mut m, "outer selector did not parse (scalar+multi-leaf scope): ");
                    push_str(&mut m, d.as_str());
                    extraction_err("css_select", m)
                },
                Ok(c) => if c == 0 {
                    let mut m: Vec<char> = Vec::new();
                    push_str(&mut m, "outer selector ");
                    let q = debug_quoted(selector.as_str());
                    push_str(&mut m, q.as_str());
                    push_str(&mut m, " matched no elements; scalar+multi-leaf bindings need an outer scope (ADR 0019 \u{a7}\"Semantics, by recipe shape\")");
                    extraction_err("css_select", m)
                } else {
                    css_scope_inners(recipe, html.as_str(), selector.as_str(), c)
                },
            }
        },
        ExtractionSpec::JsonPath { path } => match query_json_path(bytes, path.as_str()) {
            JsonQueryOutcome::NotJson { detail } => {
                let mut m: Vec<char> = Vec::new();
                push_str(&mut m, "bytes did not parse as JSON: ");
                push_str(&mut m, detail.as_str());
                extraction_err("json_path", m)
            },
            JsonQueryOutcome::BadPath { detail } => {
                let mut m: Vec<char> = Vec::new();
                push_str(&mut m, "outer path query failed: ");
                push_str(&mut m, detail.as_str());
                extraction_err("json_path", m)
            },
            JsonQueryOutcome::Matched { nodes } => {
                let ghost v = nodes.deep_view();
                let mut i: usize = 0;
                assert(v.take(0) =~= Seq::<(bool, Seq<char>)>::empty());
                while i < nodes.len()
                    invariant
                        i <= nodes@.len(),
                        v == nodes.deep_view(),
                        v.len() == nodes@.len(),
                        json_path_query(bytes@, path@) == JsonQueryView::Matched(v),
                        json_outer_count(bytes@, path@) == Some(v.len()),
                        recipe.extraction == (ExtractionSpec::JsonPath { path: *path }),
                        first_non_null_at(v.take(i as int)) is None,
                    decreases nodes@.len() - i,
                {
                    assert(v.take(i + 1).drop_last() =~= v.take(i as int));
                    assert(v[i as int] == nodes@[i as int]@);
                    if !nodes[i].is_null {
                        proof {
                            lemma_first_non_null_extend(v, i + 1, v.len() as int);
                            assert(v.take(v.len() as int) =~= v);
                        }
                        return json_scope_inners(recipe, bytes, path.as_str(), i, nodes.len());
                    }
                    i += 1;
                }
                assert(v.take(i as int) =~= v);
                let mut m: Vec<char> = Vec::new();
                push_str(&mut m, "outer path ");
                let q = debug_quoted(path.as_str());
                push_str(&mut m, q.as_str());
                push_str(&mut m, " matched no non-null nodes; scalar+multi-leaf bindings need an outer scope (ADR 0019 \u{a7}\"Semantics, by recipe shape\")");
                extraction_err("json_path", m)
            },
        },
        other => {
            let mut m: Vec<char> = Vec::new();
            push_str(&mut m, "scalar+multi-leaf bindings under outer mode ");
            push_str(&mut m, mode_name(other));
            push_str(
                &mut m,
                " are not implemented in Phase 2A; supported outer modes are css_select and json_path (ADR 0019 \u{a7}\"Two-phase rollout\"). csv_cell / pdf_table / regex_capture defer to Phase 2B.",
            );
            Err(ApplyError::NotImplemented { mode: "extracted_inner", reason: string_of(m.as_slice()) })
        },
    }
}

/// Apply a scalar recipe (one without an iterator) to fetched bytes: one
/// extraction, then, where some binding has inner field maps, each
/// binding's inner extractions within the extraction's scope. `pdf_text`
/// is the per-page text of the bytes as the PDF reader gave it, or its
/// error. The first failure ends the run.
pub fn apply_scalar(recipe: &FetchRecipe, bytes: &[u8], pdf_text: &Result<Vec<String>, String>) -> (r: Result<
    ScalarApplied,
    ApplyError,
>)
    ensures
        scalar_matches(r, spec_apply_scalar(*recipe, bytes@, pages_view(*pdf_text))),
{
    let x = match extract(&recipe.extraction, bytes, pdf_text) {
        Ok(x) => x,
        Err(e) => {
            return Err(e);
        },
    };
    if recipe_needs_inner(recipe) {
        match scalar_inner(recipe, bytes) {
            Ok(v) => Ok(ScalarApplied { extracted: x, inner: v }),
            Err(e) => Err(e),
        }
    } else {
        let mut v: Vec<Option<Vec<(String, String)>>> = Vec::new();
        let mut k: usize = 0;
        while k < recipe.produces.len()
            invariant
                k <= recipe.produces@.len(),
                v@.len() == k,
                forall|j: int| 0 <= j < k ==> (#[trigger] v@[j]) is None,
            decreases recipe.produces@.len() - k,
        {
            v.push(None);
            k += 1;
        }
        assert(v@.map_values(|o: Option<Vec<(String, String)>>| opt_pairs_view(o)) =~= Seq::new(
            recipe.produces@.len(),
            |k: int| None::<Seq<(Seq<char>, Seq<char>)>>,
        ));
        Ok(ScalarApplied { extracted: x, inner: v })
    }
}

/// What applying a recipe yields before content assembly.
#[derive(Debug, Clone, PartialEq, Eq)]
pub enum Applied {
    /// A scalar recipe's extraction and per-binding inner extractions.
    Scalar(ScalarApplied),
    /// An iterator recipe's records, per match and binding.
    Records(Vec<AppliedRecord>),
}

/// Apply a recipe to fetched bytes: without an iterator, the scalar
/// runtime; with one, the iterator runtime.
pub fn apply(recipe: &FetchRecipe, bytes: &[u8], pdf_text: &Result<Vec<String>, String>) -> (r: Result<Applied, ApplyError>)
    ensures
        match recipe.iterator {
            None => match spec_apply_scalar(*recipe, bytes@, pages_view(*pdf_text)) {
                Ok((x, v)) => r matches Ok(Applied::Scalar(a)) && scalar_matches(Ok(a), Ok((x, v))),
                Err(f) => r matches Err(e) && failure_is(e, f),
            },
            Some(it) => match spec_apply_iterator(*recipe, bytes@, it) {
                Ok(recs) => r matches Ok(Applied::Records(v)) && v@.map_values(|a: AppliedRecord| a@) == recs,
                Err(f) => r matches Err(e) && failure_is(e, f),
            },
        },
{
    match &recipe.iterator {
        None => match apply_scalar(recipe, bytes, pdf_text) {
            Ok(a) => Ok(Applied::Scalar(a)),
            Err(e) => Err(e),
        },
        Some(it) => match apply_iterator(recipe, bytes, it) {
            Ok(v) => Ok(Applied::Records(v)),
            Err(e) => Err(e),
        },
    }
}

// ---------------------------------------------------------------------------
// Shape validation against prefetched bytes
// ---------------------------------------------------------------------------

/// Inner leaves as JSON strings, by mapping path.
pub open spec fn leaves_model(p: Seq<(Seq<char>, Seq<char>)>) -> Seq<(Seq<char>, JsonModel)> {
    Seq::new(p.len(), |i: int| (p[i].0, JsonModel::Str(p[i].1)))
}

/// Whether a record draft of binding `b` builds, with the extracted
/// text `x` and the inner leaves `inner` standing as JSON strings: the
/// reason the draft fails, if it does.
pub open spec fn spec_binding_shape(
    b: ProductionBinding,
    x: Seq<char>,
    plan: JsonModel,
    inner: Option<Seq<(Seq<char>, Seq<char>)>>,
) -> Result<(), Seq<char>> {
    let im = match inner {
        Some(p) => Some(leaves_model(p)),
        None => None,
    };
    match spec_build_content(b.field_mappings@, b.record_type, JsonModel::Str(x), plan, im) {
        Err(reason) => Err(reason),
        Ok(_) => if b.record_type is Document || b.record_type is Assertion {
            Err(not_producible_reason(b.record_type))
        } else {
            Ok(())
        },
    }
}

/// Binding `k`'s step: its inner extractions, then its draft.
pub open spec fn shape_step(
    b: ProductionBinding,
    k: int,
    x: Seq<char>,
    plan: JsonModel,
    inner: Result<Option<Seq<(Seq<char>, Seq<char>)>>, ApplyFailure>,
) -> Result<(), ApplyFailure> {
    match inner {
        Err(f) => Err(f),
        Ok(p) => match spec_binding_shape(b, x, plan, p) {
            Err(reason) => Err(ApplyFailure::Binding(k as nat, reason)),
            Ok(()) => Ok(()),
        },
    }
}

/// The first `k` bindings' steps, inner extractions taken within CSS
/// match `m` of `outer`.
pub open spec fn spec_shape_css_bindings(
    recipe: FetchRecipe,
    html: Seq<char>,
    outer: Seq<char>,
    m: int,
    x: Seq<char>,
    plan: JsonModel,
    k: int,
) -> Result<(), ApplyFailure>
    decreases k,
{
    if k <= 0 {
        Ok(())
    } else {
        match spec_shape_css_bindings(recipe, html, outer, m, x, plan, k - 1) {
            Err(f) => Err(f),
            Ok(()) => shape_step(
                recipe.produces@[k - 1],
                k - 1,
                x,
                plan,
                spec_css_inner(html, outer, recipe.produces@[k - 1], (k - 1) as nat, false, m),
            ),
        }
    }
}

/// The first `k` bindings' steps, inner extractions taken within JSON
/// match `m` of `outer`.
pub open spec fn spec_shape_json_bindings(
    recipe: FetchRecipe,
    bytes: Seq<u8>,
    outer: Seq<char>,
    m: int,
    x: Seq<char>,
    plan: JsonModel,
    k: int,
) -> Result<(), ApplyFailure>
    decreases k,
{
    if k <= 0 {
        Ok(())
    } else {
        match spec_shape_json_bindings(recipe, bytes, outer, m, x, plan, k - 1) {
            Err(f) => Err(f),
            Ok(()) => shape_step(
                recipe.produces@[k - 1],
                k - 1,
                x,
                plan,
                spec_json_inner(bytes, outer, recipe.produces@[k - 1], (k - 1) as nat, false, m),
            ),
        }
    }
}

/// The first `k` bindings' steps without inner extractions.
pub open spec fn spec_shape_plain_bindings(recipe: FetchRecipe, x: Seq<char>, plan: JsonModel, k: int) -> Result<
    (),
    ApplyFailure,
>
    decreases k,
{
    if k <= 0 {
        Ok(())
    } else {
        match spec_shape_plain_bindings(recipe, x, plan, k - 1) {
            Err(f) => Err(f),
            Ok(()) => shape_step(recipe.produces@[k - 1], k - 1, x, plan, Ok(None)),
        }
    }
}

/// The position of the first outer match that holds an inner match.
pub open spec fn first_hit(v: Seq<Option<Option<Seq<char>>>>) -> Option<int>
    decreases v.len(),
{
    if v.len() == 0 {
        None
    } else {
        match first_hit(v.drop_last()) {
            Some(i) => Some(i),
            None => if v.last() is Some {
                Some(v.len() - 1)
            } else {
                None
            },
        }
    }
}

/// The reason no outer match with an inner match is found again.
pub open spec fn relocate_reason() -> Seq<char> {
    "iterator validator agreed inner matches but shape validator could not re-locate the match \u{2014} bytes mutated under us"@
}

/// Shape validation of a `css_select` × `css_select` iterator recipe:
/// one record per binding, from the first outer match that holds an
/// inner match.
pub open spec fn spec_shape_css_iterator(
    recipe: FetchRecipe,
    bytes: Seq<u8>,
    outer: Seq<char>,
    inner: Seq<char>,
    attr: Option<Seq<char>>,
    plan: JsonModel,
) -> Result<(), ApplyFailure> {
    if !valid_utf8(bytes) {
        Err(ApplyFailure::Extraction("css_select"@, not_utf8_reason(bytes)))
    } else {
        let html = decode_utf8(bytes);
        match css_scoped_leaf(html, outer, inner, attr) {
            CssLeavesView::BadOuter(d) => Err(ApplyFailure::Extraction("css_select"@, "iterator selector did not parse: "@ + d)),
            CssLeavesView::BadInner(d) => Err(ApplyFailure::Extraction("css_select"@, "inner selector did not parse: "@ + d)),
            CssLeavesView::Leaves(v) => match first_hit(v) {
                None => Err(ApplyFailure::Extraction("css_select"@, relocate_reason())),
                Some(m) => match spec_css_within(v[m], attr) {
                    Err(reason) => Err(ApplyFailure::Extraction("css_select"@, reason)),
                    Ok(x) => spec_shape_css_bindings(recipe, html, outer, m, x, plan, recipe.produces@.len() as int),
                },
            },
        }
    }
}

/// Shape validation of a `json_path` × `json_path` iterator recipe:
/// one record per binding, from the first non-null outer match.
pub open spec fn spec_shape_json_iterator(
    recipe: FetchRecipe,
    bytes: Seq<u8>,
    outer: Seq<char>,
    inner: Seq<char>,
    plan: JsonModel,
) -> Result<(), ApplyFailure> {
    match json_path_query(bytes, outer) {
        JsonQueryView::NotJson(d) => Err(ApplyFailure::Extraction("json_path"@, "bytes did not parse as JSON: "@ + d)),
        JsonQueryView::BadPath(d) => Err(ApplyFailure::Extraction("json_path"@, "iterator path query failed: "@ + d)),
        JsonQueryView::Matched(nodes) => match first_non_null_at(nodes) {
            None => Err(
                ApplyFailure::Extraction("json_path"@, "iterator path "@ + debug_str(outer) + " matched no non-null nodes"@),
            ),
            Some(m) => match json_scoped_nodes(bytes, outer, inner) {
                JsonLeavesView::NotJson(d) => Err(ApplyFailure::Extraction("json_path"@, "bytes did not parse as JSON: "@ + d)),
                JsonLeavesView::BadOuter(d) => Err(ApplyFailure::Extraction("json_path"@, "iterator path query failed: "@ + d)),
                JsonLeavesView::Leaves(v) => match spec_json_within(v[m], inner) {
                    Err(reason) => Err(ApplyFailure::Extraction("json_path"@, reason)),
                    Ok(x) => spec_shape_json_bindings(recipe, bytes, outer, m, x, plan, recipe.produces@.len() as int),
                },
            },
        },
    }
}

/// Shape validation of a scalar recipe: its extraction, then one record
/// per binding, inner extractions taken within the first CSS match or the
/// first non-null JSON node where a binding has inner field maps.
pub open spec fn spec_shape_scalar(
    recipe: FetchRecipe,
    bytes: Seq<u8>,
    pdf_text: Result<Seq<Seq<char>>, Seq<char>>,
    plan: JsonModel,
) -> Result<(), ApplyFailure> {
    let n = recipe.produces@.len() as int;
    match spec_extract(recipe.extraction, bytes, pdf_text) {
        Err(reason) => Err(ApplyFailure::Extraction(spec_mode_name(recipe.extraction), reason)),
        Ok(x) => if !any_needs_inner(recipe) {
            spec_shape_plain_bindings(recipe, x, plan, n)
        } else {
            match recipe.extraction {
                ExtractionSpec::CssSelect { selector, .. } => if !valid_utf8(bytes) {
                    Err(ApplyFailure::Extraction("css_select"@, not_utf8_reason(bytes)))
                } else {
                    let html = decode_utf8(bytes);
                    match css_outer_count(html, selector@) {
                        None => Err(
                            ApplyFailure::Extraction(
                                "css_select"@,
                                "outer selector did not parse: "@ + css_selector_error(selector@),
                            ),
                        ),
                        Some(c) => if c == 0 {
                            Err(
                                ApplyFailure::Extraction(
                                    "css_select"@,
                                    "outer selector "@ + debug_str(selector@)
                                        + " matched no elements; scalar+multi-leaf bindings need an outer scope"@,
                                ),
                            )
                        } else {
                            spec_shape_css_bindings(recipe, html, selector@, 0, x, plan, n)
                        },
                    }
                },
                ExtractionSpec::JsonPath { path } => match json_path_query(bytes, path@) {
                    JsonQueryView::NotJson(d) => Err(
                        ApplyFailure::Extraction("json_path"@, "bytes did not parse as JSON: "@ + d),
                    ),
                    JsonQueryView::BadPath(d) => Err(ApplyFailure::Extraction("json_path"@, "outer path query failed: "@ + d)),
                    JsonQueryView::Matched(v) => match first_non_null_at(v) {
                        None => Err(
                            ApplyFailure::Extraction(
                                "json_path"@,
                                "outer path "@ + debug_str(path@) + " matched no non-null nodes"@,
                            ),
                        ),
                        Some(m) => spec_shape_json_bindings(recipe, bytes, path@, m, x, plan, n),
                    },
                },
                _ => spec_shape_plain_bindings(recipe, x, plan, n),
            }
        },
    }
}

/// The reason the shape validator refuses an iterator pairing.
pub open spec fn shape_pair_reason() -> Seq<char> {
    "shape validator handles css_select \u{d7} css_select (ADR 0016 Phase 1) and json_path \u{d7} json_path (ADR 0019 Phase 2A) iterator pairings; other modes (csv_cell, pdf_table, regex_capture) defer to Phase 2B."@
}

/// What the shape validator decides: every error of the structural
/// validator, and past it, the error of building one record per binding
/// from the first match, as the runtime would (plan pointers walking
/// `plan`, the plan's JSON form).
pub open spec fn spec_shape_validation(
    recipe: FetchRecipe,
    bytes: Seq<u8>,
    pdf_text: Result<Seq<Seq<char>>, Seq<char>>,
    plan: JsonModel,
) -> Result<(), ApplyFailure> {
    match spec_structural_validation(recipe, bytes, pdf_text) {
        ValidationVerdict::Extraction(mode, reason) => Err(ApplyFailure::Extraction(mode, reason)),
        ValidationVerdict::NotImplemented(mode, reason) => Err(ApplyFailure::NotImplemented(mode, reason)),
        ValidationVerdict::Valid => match recipe.iterator {
            None => spec_shape_scalar(recipe, bytes, pdf_text, plan),
            Some(it) => match (it, recipe.extraction) {
                (ExtractionSpec::CssSelect { selector: o, .. }, ExtractionSpec::CssSelect { selector: i, attribute }) => {
                    spec_shape_css_iterator(recipe, bytes, o@, i@, opt_string_view(attribute), plan)
                },
                (ExtractionSpec::JsonPath { path: o }, ExtractionSpec::JsonPath { path: i }) => {
                    spec_shape_json_iterator(recipe, bytes, o@, i@, plan)
                },
                _ => Err(ApplyFailure::NotImplemented("iterator"@, shape_pair_reason())),
            },
        },
    }
}

proof fn lemma_shape_css_err(recipe: FetchRecipe, html: Seq<char>, outer: Seq<char>, m: int, x: Seq<char>, plan: JsonModel, j: int, k: int)
    requires
        0 <= j <= k,
        spec_shape_css_bindings(recipe, html, outer, m, x, plan, j) is Err,
    ensures
        spec_shape_css_bindings(recipe, html, outer, m, x, plan, k) == spec_shape_css_bindings(recipe, html, outer, m, x, plan, j),
    decreases k - j,
{
    if j < k {
        lemma_shape_css_err(recipe, html, outer, m, x, plan, j, k - 1);
    }
}

proof fn lemma_shape_json_err(recipe: FetchRecipe, bytes: Seq<u8>, outer: Seq<char>, m: int, x: Seq<char>, plan: JsonModel, j: int, k: int)
    requires
        0 <= j <= k,
        spec_shape_json_bindings(recipe, bytes, outer, m, x, plan, j) is Err,
    ensures
        spec_shape_json_bindings(recipe, bytes, outer, m, x, plan, k) == spec_shape_json_bindings(recipe, bytes, outer, m, x, plan, j),
    decreases k - j,
{
    if j < k {
        lemma_shape_json_err(recipe, bytes, outer, m, x, plan, j, k - 1);
    }
}

proof fn lemma_shape_plain_err(recipe: FetchRecipe, x: Seq<char>, plan: JsonModel, j: int, k: int)
    requires
        0 <= j <= k,
        spec_shape_plain_bindings(recipe, x, plan, j) is Err,
    ensures
        spec_shape_plain_bindings(recipe, x, plan, k) == spec_shape_plain_bindings(recipe, x, plan, j),
    decreases k - j,
{
    if j < k {
        lemma_shape_plain_err(recipe, x, plan, j, k - 1);
    }
}

/// `r` is the shape outcome `expected`.
pub open spec fn shape_matches(r: Result<(), ApplyError>, expected: Result<(), ApplyFailure>) -> bool {
    match expected {
        Ok(()) => r is Ok,
        Err(f) => r matches Err(e) && failure_is(e, f),
    }
}

fn str_leaves(p: &Vec<(String, String)>) -> (r: Vec<(String, JsonValue)>)
    ensures
        entries_model(r@) == leaves_model(pairs_view(*p)),
{
    let mut out: Vec<(String, JsonValue)> = Vec::new();
    let mut i: usize = 0;
    while i < p.len()
        invariant
            i <= p@.len(),
            out@.len() == i,
            forall|j: int| 0 <= j < i ==> (#[trigger] out@[j]).0@ == p@[j].0@ && out@[j].1 == JsonValue::Str(p@[j].1),
        decreases p@.len() - i,
    {
        out.push((p[i].0.clone(), JsonValue::Str(p[i].1.clone())));
        i = i + 1;
    }
    assert(entries_model(out@) =~= leaves_model(pairs_view(*p)));
    out
}

/// Builds binding `k`'s record draft and keeps only whether it built.
fn binding_shape(
    b: &ProductionBinding,
    k: usize,
    x: &String,
    recipe: &FetchRecipe,
    plan: &ResearchPlan,
    plan_json: &JsonValue,
    inner: Option<Vec<(String, String)>>,
    dedup_key: &Option<String>,
    fetched_at: i64,
) -> (r: Result<(), ApplyError>)
    ensures
        match spec_binding_shape(*b, x@, model(*plan_json), opt_pairs_view(inner)) {
            Ok(()) => r is Ok,
            Err(reason) => r matches Err(ApplyError::Binding { index: i, reason: y }) && i == k && y@ == reason,
        },
{
    let leaves = match &inner {
        Some(p) => Some(str_leaves(p)),
        None => None,
    };
    let xv = JsonValue::Str(x.clone());
    let key = match dedup_key {
        Some(d) => Some(d.clone()),
        None => None,
    };
    match build_record(b, k, x.as_str(), &xv, leaves.as_ref(), recipe, plan, plan_json, key, fetched_at) {
        Ok(_) => Ok(()),
        Err(e) => Err(e),
    }
}

fn shape_css_bindings(
    recipe: &FetchRecipe,
    html: &str,
    outer: &str,
    m: usize,
    count: usize,
    x: &String,
    plan: &ResearchPlan,
    plan_json: &JsonValue,
    dedup_key: &Option<String>,
    fetched_at: i64,
) -> (r: Result<(), ApplyError>)
    requires
        css_outer_count(html@, outer@) == Some(count as nat),
        m < count,
    ensures
        shape_matches(r, spec_shape_css_bindings(*recipe, html@, outer@, m as int, x@, model(*plan_json), recipe.produces@.len() as int)),
{
    let ghost pj = model(*plan_json);
    let mut k: usize = 0;
    while k < recipe.produces.len()
        invariant
            k <= recipe.produces@.len(),
            css_outer_count(html@, outer@) == Some(count as nat),
            m < count,
            pj == model(*plan_json),
            spec_shape_css_bindings(*recipe, html@, outer@, m as int, x@, pj, k as int) == Ok::<(), ApplyFailure>(()),
        decreases recipe.produces@.len() - k,
    {
        let b = &recipe.produces[k];
        let inner = match css_inner(html, outer, b, k, false, m, count) {
            Err(e) => {
                proof {
                    lemma_shape_css_err(*recipe, html@, outer@, m as int, x@, pj, k + 1, recipe.produces@.len() as int);
                }
                return Err(e);
            },
            Ok(i) => i,
        };
        match binding_shape(b, k, x, recipe, plan, plan_json, inner, dedup_key, fetched_at) {
            Err(e) => {
                proof {
                    lemma_shape_css_err(*recipe, html@, outer@, m as int, x@, pj, k + 1, recipe.produces@.len() as int);
                }
                return Err(e);
            },
            Ok(()) => {},
        }
        k += 1;
    }
    Ok(())
}

fn shape_json_bindings(
    recipe: &FetchRecipe,
    bytes: &[u8],
    outer: &str,
    m: usize,
    count: usize,
    x: &String,
    plan: &ResearchPlan,
    plan_json: &JsonValue,
    dedup_key: &Option<String>,
    fetched_at: i64,
) -> (r: Result<(), ApplyError>)
    requires
        json_outer_count(bytes@, outer@) == Some(count as nat),
        m < count,
    ensures
        shape_matches(r, spec_shape_json_bindings(*recipe, bytes@, outer@, m as int, x@, model(*plan_json), recipe.produces@.len() as int)),
{
    let ghost pj = model(*plan_json);
    let mut k: usize = 0;
    while k < recipe.produces.len()
        invariant
            k <= recipe.produces@.len(),
            json_outer_count(bytes@, outer@) == Some(count as nat),
            m < count,
            pj == model(*plan_json),
            spec_shape_json_bindings(*recipe, bytes@, outer@, m as int, x@, pj, k as int) == Ok::<(), ApplyFailure>(()),
        decreases recipe.produces@.len() - k,
    {
        let b = &recipe.produces[k];
        let inner = match json_inner(bytes, outer, b, k, false, m, count) {
            Err(e) => {
                proof {
                    lemma_shape_json_err(*recipe, bytes@, outer@, m as int, x@, pj, k + 1, recipe.produces@.len() as int);
                }
                return Err(e);
            },
            Ok(i) => i,
        };
        match binding_shape(b, k, x, recipe, plan, plan_json, inner, dedup_key, fetched_at) {
            Err(e) => {
                proof {
                    lemma_shape_json_err(*recipe, bytes@, outer@, m as int, x@, pj, k + 1, recipe.produces@.len() as int);
                }
                return Err(e);
            },
            Ok(()) => {},
        }
        k += 1;
    }
    Ok(())
}

fn shape_plain_bindings(
    recipe: &FetchRecipe,
    x: &String,
    plan: &ResearchPlan,
    plan_json: &JsonValue,
    dedup_key: &Option<String>,
    fetched_at: i64,
) -> (r: Result<(), ApplyError>)
    ensures
        shape_matches(r, spec_shape_plain_bindings(*recipe, x@, model(*plan_json), recipe.produces@.len() as int)),
{
    let ghost pj = model(*plan_json);
    let mut k: usize = 0;
    while k < recipe.produces.len()
        invariant
            k <= recipe.produces@.len(),
            pj == model(*plan_json),
            spec_shape_plain_bindings(*recipe, x@, pj, k as int) == Ok::<(), ApplyFailure>(()),
        decreases recipe.produces@.len() - k,
    {
        let b = &recipe.produces[k];
        match binding_shape(b, k, x, recipe, plan, plan_json, None, dedup_key, fetched_at) {
            Err(e) => {
                proof {
                    lemma_shape_plain_err(*recipe, x@, pj, k + 1, recipe.produces@.len() as int);
                }
                return Err(e);
            },
            Ok(()) => {},
        }
        k += 1;
    }
    Ok(())
}

proof fn lemma_first_hit_extend(v: Seq<Option<Option<Seq<char>>>>, j: int, k: int)
    requires
        0 <= j <= k <= v.len(),
        first_hit(v.take(j)) is Some,
    ensures
        first_hit(v.take(k)) == first_hit(v.take(j)),
    decreases k - j,
{
    if j < k {
        lemma_first_hit_extend(v, j, k - 1);
        assert(v.take(k).drop_last() =~= v.take(k - 1));
    }
}

fn first_hit_index(values: &Vec<Option<Option<String>>>) -> (r: Option<usize>)
    ensures
        match first_hit(values.deep_view()) {
            Some(i) => r == Some(i as usize) && 0 <= i < values@.len(),
            None => r is None,
        },
{
    let ghost v = values.deep_view();
    let mut i: usize = 0;
    assert(v.take(0) =~= Seq::<Option<Option<Seq<char>>>>::empty());
    while i < values.len()
        invariant
            i <= values@.len(),
            v == values.deep_view(),
            v.len() == values@.len(),
            first_hit(v.take(i as int)) is None,
        decreases values@.len() - i,
    {
        assert(v.take(i + 1).drop_last() =~= v.take(i as int));
        assert(v[i as int] == values@[i as int].deep_view());
        if values[i].is_some() {
            proof {
                lemma_first_hit_extend(v, i + 1, v.len() as int);
                assert(v.take(v.len() as int) =~= v);
            }
            return Some(i);
        }
        i += 1;
    }
    assert(v.take(i as int) =~= v);
    None
}

fn first_non_null_index(nodes: &Vec<JsonNode>) -> (r: Option<usize>)
    ensures
        match first_non_null_at(nodes.deep_view()) {
            Some(i) => r == Some(i as usize) && 0 <= i < nodes@.len(),
            None => r is None,
        },
{
    let ghost v = nodes.deep_view();
    let mut i: usize = 0;
    assert(v.take(0) =~= Seq::<(bool, Seq<char>)>::empty());
    while i < nodes.len()
        invariant
            i <= nodes@.len(),
            v == nodes.deep_view(),
            v.len() == nodes@.len(),
            first_non_null_at(v.take(i as int)) is None,
        decreases nodes@.len() - i,
    {
        assert(v.take(i + 1).drop_last() =~= v.take(i as int));
        assert(v[i as int] == nodes@[i as int]@);
        if !nodes[i].is_null {
            proof {
                lemma_first_non_null_extend(v, i + 1, v.len() as int);
                assert(v.take(v.len() as int) =~= v);
            }
            return Some(i);
        }
        i += 1;
    }
    assert(v.take(i as int) =~= v);
    None
}

fn shape_css_iterator(
    recipe: &FetchRecipe,
    bytes: &[u8],
    outer: &str,
    inner: &str,
    attr: Option<&str>,
    plan: &ResearchPlan,
    plan_json: &JsonValue,
    dedup_key: &Option<String>,
    fetched_at: i64,
) -> (r: Result<(), ApplyError>)
    ensures
        shape_matches(r, spec_shape_css_iterator(*recipe, bytes@, outer@, inner@, opt_str_view(attr), model(*plan_json))),
{
    let html = match utf8_str(bytes) {
        Ok(h) => h,
        Err(e) => {
            let mut m: Vec<char> = Vec::new();
            push_str(&mut m, "bytes were not UTF-8: ");
            push_str(&mut m, e.as_str());
            return extraction_err("css_select", m);
        },
    };
    let values = match select_scoped_leaves(html.as_str(), outer, inner, attr) {
        CssLeavesOutcome::BadOuter { detail } => {
            let mut m: Vec<char> = Vec::new();
            push_str(&mut m, "iterator selector did not parse: ");
            push_str(&mut m, detail.as_str());
            return extraction_err("css_select", m);
        },
        CssLeavesOutcome::BadInner { detail } => {
            let mut m: Vec<char> = Vec::new();
            push_str(&mut m, "inner selector did not parse: ");
            push_str(&mut m, detail.as_str());
            return extraction_err("css_select", m);
        },
        CssLeavesOutcome::Leaves { values } => values,
    };
    let m = match first_hit_index(&values) {
        None => {
            let mut t: Vec<char> = Vec::new();
            push_str(&mut t, "iterator validator agreed inner matches but shape validator could not re-locate the match \u{2014} bytes mutated under us");
            return extraction_err("css_select", t);
        },
        Some(m) => m,
    };
    assert(values.deep_view()[m as int] == values@[m as int].deep_view());
    let x = match css_within(&values[m], attr) {
        Err(e) => {
            return Err(e);
        },
        Ok(x) => x,
    };
    shape_css_bindings(recipe, html.as_str(), outer, m, values.len(), &x, plan, plan_json, dedup_key, fetched_at)
}

fn shape_json_iterator(
    recipe: &FetchRecipe,
    bytes: &[u8],
    outer: &str,
    inner: &str,
    plan: &ResearchPlan,
    plan_json: &JsonValue,
    dedup_key: &Option<String>,
    fetched_at: i64,
) -> (r: Result<(), ApplyError>)
    ensures
        shape_matches(r, spec_shape_json_iterator(*recipe, bytes@, outer@, inner@, model(*plan_json))),
{
    let nodes = match query_json_path(bytes, outer) {
        JsonQueryOutcome::NotJson { detail } => {
            let mut m: Vec<char> = Vec::new();
            push_str(&mut m, "bytes did not parse as JSON: ");
            push_str(&mut m, detail.as_str());
            return extraction_err("json_path", m);
        },
        JsonQueryOutcome::BadPath { detail } => {
            let mut m: Vec<char> = Vec::new();
            push_str(&mut m, "iterator path query failed: ");
            push_str(&mut m, detail.as_str());
            return extraction_err("json_path", m);
        },
        JsonQueryOutcome::Matched { nodes } => nodes,
    };
    let m = match first_non_null_index(&nodes) {
        None => {
            let mut t: Vec<char> = Vec::new();
            push_str(&mut t, "iterator path ");
            push_str(&mut t, debug_quoted(outer).as_str());
            push_str(&mut t, " matched no non-null nodes");
            return extraction_err("json_path", t);
        },
        Some(m) => m,
    };
    let scopes = match query_json_leaves(bytes, outer, inner) {
        JsonLeavesOutcome::NotJson { detail } => {
            let mut t: Vec<char> = Vec::new();
            push_str(&mut t, "bytes did not parse as JSON: ");
            push_str(&mut t, detail.as_str());
            return extraction_err("json_path", t);
        },
        JsonLeavesOutcome::BadOuter { detail } => {
            let mut t: Vec<char> = Vec::new();
            push_str(&mut t, "iterator path query failed: ");
            push_str(&mut t, detail.as_str());
            return extraction_err("json_path", t);
        },
        JsonLeavesOutcome::Leaves { scopes } => scopes,
    };
    assert(scopes.deep_view()[m as int] == scopes@[m as int].deep_view());
    let x = match json_within(&scopes[m], inner) {
        Err(e) => {
            return Err(e);
        },
        Ok(x) => x,
    };
    shape_json_bindings(recipe, bytes, outer, m, scopes.len(), &x, plan, plan_json, dedup_key, fetched_at)
}

fn shape_scalar(
    recipe: &FetchRecipe,
    bytes: &[u8],
    pdf_text: &Result<Vec<String>, String>,
    plan: &ResearchPlan,
    plan_json: &JsonValue,
    fetched_at: i64,
) -> (r: Result<(), ApplyError>)
    ensures
        shape_matches(r, spec_shape_scalar(*recipe, bytes@, pages_view(*pdf_text), model(*plan_json))),
{
    let none: Option<String> = None;
    let x = match extract(&recipe.extraction, bytes, pdf_text) {
        Ok(x) => x,
        Err(e) => {
            return Err(e);
        },
    };
    if !recipe_needs_inner(recipe) {
        return shape_plain_bindings(recipe, &x, plan, plan_json, &none, fetched_at);
    }
    match &recipe.extraction {
        ExtractionSpec::CssSelect { selector, .. } => {
            let html = match utf8_str(bytes) {
                Ok(h) => h,
                Err(e) => {
                    let mut m: Vec<char> = Vec::new();
                    push_str(&mut m, "bytes were not UTF-8: ");
                    push_str(&mut m, e.as_str());
                    return extraction_err("css_select", m);
                },
            };
            match count_css_matches(html.as_str(), selector.as_str()) {
                Err(d) => {
                    let mut m: Vec<char> = Vec::new();
                    push_str(&mut m, "outer selector did not parse: ");
                    push_str(&mut m, d.as_str());
                    extraction_err("css_select", m)
                },
                Ok(c) => if c == 0 {
                    let mut m: Vec<char> = Vec::new();
                    push_str(&mut m, "outer selector ");
                    push_str(&mut m, debug_quoted(selector.as_str()).as_str());
                    push_str(&mut m, " matched no elements; scalar+multi-leaf bindings need an outer scope");
                    extraction_err("css_select", m)
                } else {
                    shape_css_bindings(recipe, html.as_str(), selector.as_str(), 0, c, &x, plan, plan_json, &none, fetched_at)
                },
            }
        },
        ExtractionSpec::JsonPath { path } => {
            let nodes = match query_json_path(bytes, path.as_str()) {
                JsonQueryOutcome::NotJson { detail } => {
                    let mut m: Vec<char> = Vec::new();
                    push_str(&mut m, "bytes did not parse as JSON: ");
                    push_str(&mut m, detail.as_str());
                    return extraction_err("json_path", m);
                },
                JsonQueryOutcome::BadPath { detail } => {
                    let mut m: Vec<char> = Vec::new();
                    push_str(&mut m, "outer path query failed: ");
                    push_str(&mut m, detail.as_str());
                    return extraction_err("json_path", m);
                },
                JsonQueryOutcome::Matched { nodes } => nodes,
            };
            match first_non_null_index(&nodes) {
                None => {
                    let mut m: Vec<char> = Vec::new();
                    push_str(&mut m, "outer path ");
                    push_str(&mut m, debug_quoted(path.as_str()).as_str());
                    push_str(&mut m, " matched no non-null nodes");
                    extraction_err("json_path", m)
                },
                Some(m) => shape_json_bindings(recipe, bytes, path.as_str(), m, nodes.len(), &x, plan, plan_json, &none, fetched_at),
            }
        },
        _ => shape_plain_bindings(recipe, &x, plan, plan_json, &none, fetched_at),
    }
}

/// Validate that a recipe would not just extract a value from the
/// prefetched bytes but also build a record for each of its bindings:
/// past every check of [`validate_recipe_against_bytes`], one record per
/// binding is built from the first match (the first outer match holding
/// an inner match, or the first non-null one, for an iterator recipe),
/// as the runtime would, and its binding, field-mapping or
/// content-assembly error is returned. `plan` is the research plan and
/// `plan_json` its JSON form, which plan pointers walk; `pdf_text` is the
/// per-page text of the bytes as the PDF reader gave it, or its error.
/// The extracted values stand as JSON strings: whether one reads as a
/// number changes no field mapping or binding outcome here.
pub fn validate_recipe_shape_against_bytes(
    recipe: &FetchRecipe,
    bytes: &[u8],
    pdf_text: &Result<Vec<String>, String>,
    plan: &ResearchPlan,
    plan_json: &JsonValue,
) -> (r: Result<(), ApplyError>)
    ensures
        shape_matches(r, spec_shape_validation(*recipe, bytes@, pages_view(*pdf_text), model(*plan_json))),
        !(spec_structural_validation(*recipe, bytes@, pages_view(*pdf_text)) is Valid) ==> verdict_matches(
            r,
            spec_structural_validation(*recipe, bytes@, pages_view(*pdf_text)),
        ),
{
    match validate_recipe_against_bytes(recipe, bytes, pdf_text) {
        Err(e) => {
            return Err(e);
        },
        Ok(()) => {},
    }
    let fetched_at: i64 = now_unix_millis() as i64;
    match (&recipe.iterator, &recipe.extraction) {
        (
            Some(ExtractionSpec::CssSelect { selector: o, .. }),
            ExtractionSpec::CssSelect { selector: i, attribute },
        ) => {
            let key = Some(shape_dedup_key(recipe));
            shape_css_iterator(recipe, bytes, o.as_str(), i.as_str(), opt_as_str(attribute), plan, plan_json, &key, fetched_at)
        },
        (Some(ExtractionSpec::JsonPath { path: o }), ExtractionSpec::JsonPath { path: i }) => {
            let key = Some(shape_dedup_key(recipe));
            shape_json_iterator(recipe, bytes, o.as_str(), i.as_str(), plan, plan_json, &key, fetched_at)
        },
        (Some(_), _) => {
            let mut m: Vec<char> = Vec::new();
            push_str(
                &mut m,
                "shape validator handles css_select \u{d7} css_select (ADR 0016 Phase 1) and json_path \u{d7} json_path (ADR 0019 Phase 2A) iterator pairings; other modes (csv_cell, pdf_table, regex_capture) defer to Phase 2B.",
            );
            Err(ApplyError::NotImplemented { mode: "iterator", reason: string_of(m.as_slice()) })
        },
        (None, _) => shape_scalar(recipe, bytes, pdf_text, plan, plan_json, fetched_at),
    }
}

/// The placeholder dedup key of a shape-validation record.
fn shape_dedup_key(recipe: &FetchRecipe) -> (r: String)
    ensures
        r@ == "shape-validator:"@ + recipe.id@,
{
    let mut m: Vec<char> = Vec::new();
    push_str(&mut m, "shape-validator:");
    push_str(&mut m, recipe.id.as_str());
    string_of(m.as_slice())
}

/// Law: the shape validator refuses every recipe the structural
/// validator refuses, with the same error; past it, it only adds the
/// errors of building the records.
pub proof fn law_shape_validation_refines_structural(
    recipe: FetchRecipe,
    bytes: Seq<u8>,
    pdf_text: Result<Seq<Seq<char>>, Seq<char>>,
    plan: JsonModel,
)
    ensures
        spec_structural_validation(recipe, bytes, pdf_text) matches ValidationVerdict::Extraction(mode, reason) ==> spec_shape_validation(
            recipe,
            bytes,
            pdf_text,
            plan,
        ) == Err::<(), ApplyFailure>(ApplyFailure::Extraction(mode, reason)),
        spec_structural_validation(recipe, bytes, pdf_text) matches ValidationVerdict::NotImplemented(mode, reason) ==> spec_shape_validation(
            recipe,
            bytes,
            pdf_text,
            plan,
        ) == Err::<(), ApplyFailure>(ApplyFailure::NotImplemented(mode, reason)),
{
}

// ---------------------------------------------------------------------------
// Currency markers in numeric candidates
// ---------------------------------------------------------------------------

/// The currency markers a numeric candidate may carry.
pub open spec fn is_currency_marker(m: Seq<char>) -> bool {
    m == "$"@ || m == "\u{20ac}"@ || m == "\u{a3}"@ || m == "\u{a5}"@ || m == "USD"@ || m == "EUR"@ || m == "usd"@
        || m == "eur"@
}

/// A non-empty run of ASCII digits.
pub open spec fn plain_digits(d: Seq<char>) -> bool {
    d.len() > 0 && forall|i: int| 0 <= i < d.len() ==> is_ascii_digit(#[trigger] d[i])
}

proof fn reveal_marker_texts()
    ensures
        "$"@ == seq!['$'],
        "\u{20ac}"@ == seq!['\u{20ac}'],
        "\u{a3}"@ == seq!['\u{a3}'],
        "\u{a5}"@ == seq!['\u{a5}'],
        "USD"@ == seq!['U', 'S', 'D'],
        "EUR"@ == seq!['E', 'U', 'R'],
        "usd"@ == seq!['u', 's', 'd'],
        "eur"@ == seq!['e', 'u', 'r'],
        "est. "@ == seq!['e', 's', 't', '.', ' '],
        "est "@ == seq!['e', 's', 't', ' '],
        "~"@ == seq!['~'],
        "\u{2248}"@ == seq!['\u{2248}'],
        "e "@ == seq!['e', ' '],
        "e"@ == seq!['e'],
{
    reveal_strlit("$");
    reveal_strlit("\u{20ac}");
    reveal_strlit("\u{a3}");
    reveal_strlit("\u{a5}");
    reveal_strlit("USD");
    reveal_strlit("EUR");
    reveal_strlit("usd");
    reveal_strlit("eur");
    reveal_strlit("est. ");
    reveal_strlit("est ");
    reveal_strlit("~");
    reveal_strlit("\u{2248}");
    reveal_strlit("e ");
    reveal_strlit("e");
    assert("$"@ =~= seq!['$']);
    assert("\u{20ac}"@ =~= seq!['\u{20ac}']);
    assert("\u{a3}"@ =~= seq!['\u{a3}']);
    assert("\u{a5}"@ =~= seq!['\u{a5}']);
    assert("USD"@ =~= seq!['U', 'S', 'D']);
    assert("EUR"@ =~= seq!['E', 'U', 'R']);
    assert("usd"@ =~= seq!['u', 's', 'd']);
    assert("eur"@ =~= seq!['e', 'u', 'r']);
    assert("est. "@ =~= seq!['e', 's', 't', '.', ' ']);
    assert("est "@ =~= seq!['e', 's', 't', ' ']);
    assert("~"@ =~= seq!['~']);
    assert("\u{2248}"@ =~= seq!['\u{2248}']);
    assert("e "@ =~= seq!['e', ' ']);
    assert("e"@ =~= seq!['e']);
}

proof fn lemma_markers(x: Seq<char>, m: Seq<char>)
    requires
        is_currency_marker(x),
        is_currency_marker(m),
    ensures
        x.len() > 0,
        !is_ascii_digit(x[0]) && !is_ascii_digit(x.last()),
        !is_white_space(x[0]) && !is_white_space(x.last()),
        x != m ==> x[0] != m[0] && x.last() != m.last(),
{
    reveal_marker_texts();
}

proof fn lemma_not_starts_with(w: Seq<char>, x: Seq<char>)
    requires
        w.len() > 0,
        x.len() > 0,
        w[0] != x[0],
    ensures
        !starts_with(w, x),
{
    if x.len() <= w.len() {
        assert(w.take(x.len() as int)[0] == w[0]);
    }
}

proof fn lemma_not_ends_with(w: Seq<char>, x: Seq<char>)
    requires
        w.len() > 0,
        x.len() > 0,
        w.last() != x.last(),
    ensures
        !ends_with(w, x),
{
    if x.len() <= w.len() {
        assert(w.skip(w.len() - x.len())[x.len() - 1] == w.last());
    }
}

proof fn lemma_digits_trim(d: Seq<char>)
    requires
        plain_digits(d),
    ensures
        trim_start(d) == d,
        trim_end(d) == d,
        remove_ascii_ws(d) == d,
        !d.contains(','),
        !d.contains('.'),
    decreases d.len(),
{
    assert(is_ascii_digit(d[0]));
    assert(is_ascii_digit(d.last()));
    if d.len() == 1 {
        assert(d.drop_last() =~= Seq::<char>::empty());
        assert(remove_ascii_ws(d.drop_last()) =~= Seq::<char>::empty());
        assert(remove_ascii_ws(d) =~= d);
    } else {
        let init = d.drop_last();
        assert forall|i: int| 0 <= i < init.len() implies is_ascii_digit(#[trigger] init[i]) by {
            assert(init[i] == d[i]);
        }
        lemma_digits_trim(init);
        assert(init.push(d.last()) =~= d);
        assert(remove_ascii_ws(d) =~= d);
    }
    assert(!d.contains(',')) by {
        if d.contains(',') {
            let k = choose|k: int| 0 <= k < d.len() && d[k] == ',';
            assert(is_ascii_digit(d[k]));
        }
    }
    assert(!d.contains('.')) by {
        if d.contains('.') {
            let k = choose|k: int| 0 <= k < d.len() && d[k] == '.';
            assert(is_ascii_digit(d[k]));
        }
    }
}

proof fn lemma_last_of_absent(s: Seq<char>, c: char, n: int)
    requires
        n <= s.len(),
        !s.contains(c),
    ensures
        last_of(s, c, n) == -1,
    decreases n,
{
    if n > 0 {
        assert(s[n - 1] != c) by {
            if s[n - 1] == c {
                assert(s.contains(c));
            }
        }
        lemma_last_of_absent(s, c, n - 1);
    }
}

/// One step of currency stripping on a digit run carrying marker `m`
/// (in front, behind, or already gone): stripping marker `x` removes `m`
/// when `x` is `m`, and changes nothing otherwise.
proof fn lemma_strip_step(w: Seq<char>, x: Seq<char>, m: Seq<char>, d: Seq<char>)
    requires
        plain_digits(d),
        is_currency_marker(m),
        is_currency_marker(x),
        w == m + d || w == d + m || w == d,
    ensures
        strip_both(w, x) == (if x == m { d } else { w }),
{
    lemma_markers(x, m);
    lemma_markers(m, m);
    lemma_digits_trim(d);
    if w == m + d {
        assert(w[0] == m[0]);
        assert(w.last() == d.last());
        lemma_not_ends_with(w, x);
        if x == m {
            assert(w.take(m.len() as int) =~= m);
            assert(w.skip(m.len() as int) =~= d);
            lemma_not_ends_with(d, m);
        } else {
            lemma_not_starts_with(w, x);
        }
    } else if w == d + m {
        assert(w[0] == d[0]);
        assert(w.last() == m.last());
        lemma_not_starts_with(w, x);
        if x == m {
            assert(w.skip(w.len() - m.len()) =~= m);
            assert(w.take(w.len() - m.len()) =~= d);
        } else {
            lemma_not_ends_with(w, x);
        }
    } else {
        lemma_not_starts_with(d, x);
        lemma_not_ends_with(d, x);
    }
}

proof fn lemma_strip_currency(w: Seq<char>, m: Seq<char>, d: Seq<char>)
    requires
        plain_digits(d),
        is_currency_marker(m),
        w == m + d || w == d + m || w == d,
    ensures
        strip_currency(w) == d,
{
    reveal_marker_texts();
    let s1 = strip_both(w, "$"@);
    lemma_strip_step(w, "$"@, m, d);
    let s2 = strip_both(s1, "\u{20ac}"@);
    lemma_strip_step(s1, "\u{20ac}"@, m, d);
    let s3 = strip_both(s2, "\u{a3}"@);
    lemma_strip_step(s2, "\u{a3}"@, m, d);
    let s4 = strip_both(s3, "\u{a5}"@);
    lemma_strip_step(s3, "\u{a5}"@, m, d);
    let s5 = strip_both(s4, "USD"@);
    lemma_strip_step(s4, "USD"@, m, d);
    let s6 = strip_both(s5, "EUR"@);
    lemma_strip_step(s5, "EUR"@, m, d);
    let s7 = strip_both(s6, "usd"@);
    lemma_strip_step(s6, "usd"@, m, d);
    lemma_strip_step(s7, "eur"@, m, d);
}

proof fn lemma_candidate_of(w: Seq<char>, m: Seq<char>, d: Seq<char>)
    requires
        plain_digits(d),
        is_currency_marker(m),
        w == m + d || w == d + m || w == d,
    ensures
        spec_numeric_candidate(w) == Some(d),
{
    reveal_marker_texts();
    lemma_markers(m, m);
    lemma_digits_trim(d);
    assert(w.len() > 0);
    assert(!is_white_space(w[0]) && !is_white_space(w.last())) by {
        if w == m + d {
            assert(w[0] == m[0] && w.last() == d.last());
        } else if w == d + m {
            assert(w[0] == d[0] && w.last() == m.last());
        }
        assert(is_ascii_digit(d[0]) && is_ascii_digit(d.last()));
    }
    assert(trim_start(w) == w);
    assert(trim(w) == w);
    // No estimate prefix applies.
    assert(!starts_with(w, "est. "@) && !starts_with(w, "est "@)) by {
        if starts_with(w, "est. "@) {
            assert(w.take(5)[0] == w[0] && w.take(5)[1] == w[1]);
        }
        if starts_with(w, "est "@) {
            assert(w.take(4)[0] == w[0] && w.take(4)[1] == w[1]);
        }
        if w.len() > 1 && w[0] == 'e' {
            assert(w == m + d);
            assert(m == "eur"@);
            assert(w[1] == m[1]);
        }
        if w[0] != 'e' {
            lemma_not_starts_with(w, "est. "@);
            lemma_not_starts_with(w, "est "@);
        }
    }
    assert(!starts_with(w, "~"@) && !starts_with(w, "\u{2248}"@)) by {
        if w == m + d {
            assert(w[0] == m[0]);
        } else if w == d + m {
            assert(w[0] == d[0]);
        }
        assert(is_ascii_digit(d[0]));
        lemma_not_starts_with(w, "~"@);
        lemma_not_starts_with(w, "\u{2248}"@);
    }
    assert(strip_estimates(w) == w) by {
        if w == m + d {
            assert(w[0] == m[0]);
        } else if w == d + m {
            assert(w[0] == d[0]);
        }
        assert(is_ascii_digit(d[0]));
        if w[0] == 'e' {
            assert(w == m + d && m == "eur"@);
            assert(w[1] == 'u');
            assert(!starts_with(w, "e "@)) by {
                if starts_with(w, "e "@) {
                    assert(w.take(2)[1] == w[1]);
                }
            }
            assert(w.skip(1)[0] == w[1]);
        } else {
            lemma_not_starts_with(w, "e "@);
            lemma_not_starts_with(w, "e"@);
        }
    }
    assert(!w.contains(',')) by {
        if w.contains(',') {
            let k = choose|k: int| 0 <= k < w.len() && w[k] == ',';
            if w == m + d {
                if k < m.len() {
                    assert(w[k] == m[k]);
                } else {
                    assert(w[k] == d[k - m.len()]);
                    assert(d.contains(','));
                }
            } else if w == d + m {
                if k < d.len() {
                    assert(w[k] == d[k]);
                    assert(d.contains(','));
                } else {
                    assert(w[k] == m[k - d.len()]);
                }
            } else {
                assert(d.contains(','));
            }
        }
    }
    lemma_last_of_absent(w, ',', w.len() as int);
    assert(!eu_shaped(w));
    lemma_strip_currency(w, m, d);
}

/// Law: a currency marker (`$`, `€`, `£`, `¥`, `USD`, `EUR`, `usd`,
/// `eur`) in front of or behind a run of digits is removed, and the run
/// normalises to itself: the marker changes nothing of the number.
pub proof fn law_currency_marker_is_dropped(m: Seq<char>, d: Seq<char>)
    requires
        is_currency_marker(m),
        plain_digits(d),
    ensures
        spec_numeric_candidate(m + d) == Some(d),
        spec_numeric_candidate(d + m) == Some(d),
        spec_numeric_candidate(d) == Some(d),
{
    lemma_candidate_of(m + d, m, d);
    lemma_candidate_of(d + m, m, d);
    lemma_candidate_of(d, m, d);
}

} // verus!
