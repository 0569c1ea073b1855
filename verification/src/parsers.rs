//! The parsing crates the extraction modes rest on, behind trusted
//! wrappers: JSONPath over `serde_json`, CSS selection with `scraper`,
//! CSV reading with `csv` and regular expressions with `regex`. Each
//! wrapper hands back plain values, and its
//! contract names that result as a function of the arguments.

use vstd::prelude::*;
use jsonpath_rust::JsonPath;

verus! {

// ---------------------------------------------------------------------------
// JSONPath
// ---------------------------------------------------------------------------

/// One node a JSONPath query matched: whether it is JSON `null`, a
/// string's contents (for a string), and the node as compact JSON.
#[derive(Debug, Clone, PartialEq, Eq)]
pub struct JsonNode {
    pub is_null: bool,
    pub string: Option<String>,
    pub json: String,
}

/// The text a node stands for: a string's contents unquoted, any other
/// value as its JSON.
pub open spec fn node_text_view(n: JsonNode) -> Seq<char> {
    match n.string {
        Some(s) => s@,
        None => n.json@,
    }
}

/// The text a node stands for.
pub fn node_text(n: &JsonNode) -> (r: String)
    ensures
        r@ == n@.1,
{
    match &n.string {
        Some(s) => s.clone(),
        None => n.json.clone(),
    }
}

/// What a JSONPath query over raw bytes gave.
#[derive(Debug, Clone, PartialEq, Eq)]
pub enum JsonQueryOutcome {
    /// The bytes are not JSON; the parser's message.
    NotJson { detail: String },
    /// The query failed; the query engine's message.
    BadPath { detail: String },
    /// The matched nodes, in document order.
    Matched { nodes: Vec<JsonNode> },
}

/// [`JsonQueryOutcome`] as plain values.
pub enum JsonQueryView {
    NotJson(Seq<char>),
    BadPath(Seq<char>),
    Matched(Seq<(bool, Seq<char>)>),
}

impl View for JsonNode {
    type V = (bool, Seq<char>);

    open spec fn view(&self) -> (bool, Seq<char>) {
        (self.is_null, node_text_view(*self))
    }
}

impl View for JsonQueryOutcome {
    type V = JsonQueryView;

    open spec fn view(&self) -> JsonQueryView {
        match self {
            JsonQueryOutcome::NotJson { detail } => JsonQueryView::NotJson(detail@),
            JsonQueryOutcome::BadPath { detail } => JsonQueryView::BadPath(detail@),
            JsonQueryOutcome::Matched { nodes } => JsonQueryView::Matched(nodes.deep_view()),
        }
    }
}

impl DeepView for JsonNode {
    type V = (bool, Seq<char>);

    open spec fn deep_view(&self) -> (bool, Seq<char>) {
        self@
    }
}

/// What parsing `bytes` as JSON and querying it with `path` gives.
pub uninterp spec fn json_path_query(bytes: Seq<u8>, path: Seq<char>) -> JsonQueryView;

/// `serde_json::from_slice` followed by jsonpath-rust's
/// `JsonPath::query`, each matched node converted to its null flag and
/// text. The contract names the outcome as a function of the bytes and
/// the path; what the parser accepts and what the query selects are not
/// stated.
#[verifier::external_body]
pub(crate) fn query_json_path(bytes: &[u8], path: &str) -> (r: JsonQueryOutcome)
    ensures
        r@ == json_path_query(bytes@, path@),
        r@ is Matched <==> json_outer_count(bytes@, path@) is Some,
        r@ matches JsonQueryView::Matched(v) ==> json_outer_count(bytes@, path@) == Some(v.len()),
{
    let value: serde_json::Value = match serde_json::from_slice(bytes) {
        Ok(v) => v,
        Err(e) => return JsonQueryOutcome::NotJson { detail: e.to_string() },
    };
    match value.query(path) {
        Err(e) => JsonQueryOutcome::BadPath { detail: e.to_string() },
        Ok(found) => JsonQueryOutcome::Matched {
            nodes: found.into_iter().map(|n| JsonNode {
                is_null: n.is_null(),
                string: n.as_str().map(String::from),
                json: n.to_string(),
            }).collect(),
        },
    }
}

/// What querying JSON bytes with an outer path, then each outer match
/// with an inner path, gave.
#[derive(Debug, Clone, PartialEq, Eq)]
pub enum JsonScopesOutcome {
    /// The bytes are not JSON; the parser's message.
    NotJson { detail: String },
    /// The outer query failed; the query engine's message.
    BadOuter { detail: String },
    /// One entry per outer match, in document order: `None` when the
    /// inner query failed on it, else the null flag of each inner match.
    Scopes { inner: Vec<Option<Vec<bool>>> },
}

/// [`JsonScopesOutcome`] as plain values.
pub enum JsonScopesView {
    NotJson(Seq<char>),
    BadOuter(Seq<char>),
    Scopes(Seq<Option<Seq<bool>>>),
}

impl View for JsonScopesOutcome {
    type V = JsonScopesView;

    open spec fn view(&self) -> JsonScopesView {
        match self {
            JsonScopesOutcome::NotJson { detail } => JsonScopesView::NotJson(detail@),
            JsonScopesOutcome::BadOuter { detail } => JsonScopesView::BadOuter(detail@),
            JsonScopesOutcome::Scopes { inner } => JsonScopesView::Scopes(inner.deep_view()),
        }
    }
}

/// What parsing `bytes` and querying with `outer`, then `inner` within
/// each outer match, gives.
pub uninterp spec fn json_scopes(bytes: Seq<u8>, outer: Seq<char>, inner: Seq<char>) -> JsonScopesView;

/// `serde_json::from_slice`, jsonpath-rust's `JsonPath::query` with the
/// outer path, and the same query with the inner path on each outer
/// match, each inner match converted to its null flag. The contract names
/// the outcome; parsing and path selection are not stated.
#[verifier::external_body]
pub(crate) fn query_json_scoped(bytes: &[u8], outer: &str, inner: &str) -> (r: JsonScopesOutcome)
    ensures
        r@ == json_scopes(bytes@, outer@, inner@),
{
    let value: serde_json::Value = match serde_json::from_slice(bytes) {
        Ok(v) => v,
        Err(e) => return JsonScopesOutcome::NotJson { detail: e.to_string() },
    };
    match value.query(outer) {
        Err(e) => JsonScopesOutcome::BadOuter { detail: e.to_string() },
        Ok(found) => JsonScopesOutcome::Scopes {
            inner: found.into_iter().map(|m| m.query(inner).ok().map(|ns| ns.into_iter().map(|n| n.is_null()).collect())).collect(),
        },
    }
}

/// A JSON literal as serde_json reads it: a string's contents (for a
/// string) and the value in serde_json's compact rendering.
#[derive(Debug, Clone, PartialEq, Eq)]
pub struct JsonLiteral {
    pub string: Option<String>,
    pub json: String,
}

/// What parsing `text` as JSON gives: a string's contents (for a string)
/// and the value's compact rendering; `None` when `text` is not JSON.
pub uninterp spec fn json_literal(text: Seq<char>) -> Option<(Option<Seq<char>>, Seq<char>)>;

/// `serde_json::from_str` into a `Value`, then `as_str` and `to_string()`
/// of it. The contract names the result; parsing and rendering are not
/// stated.
#[verifier::external_body]
pub(crate) fn parse_literal(text: &str) -> (r: Option<JsonLiteral>)
    ensures
        match r {
            Some(l) => json_literal(text@) == Some((crate::strings::opt_string_view(l.string), l.json@)),
            None => json_literal(text@) is None,
        },
{
    serde_json::from_str::<serde_json::Value>(text)
        .ok()
        .map(|v| JsonLiteral { string: v.as_str().map(String::from), json: v.to_string() })
}

/// The text a JSON literal stands for: a string's contents, any other
/// value in serde_json's compact rendering; `None` when `text` is not
/// JSON.
pub open spec fn json_literal_text(text: Seq<char>) -> Option<Seq<char>> {
    match json_literal(text) {
        Some((Some(s), _)) => Some(s),
        Some((None, j)) => Some(j),
        None => None,
    }
}

/// The text a JSON literal stands for.
pub(crate) fn literal_text(text: &str) -> (r: Option<String>)
    ensures
        match r {
            Some(t) => json_literal_text(text@) == Some(t@),
            None => json_literal_text(text@) is None,
        },
{
    match parse_literal(text) {
        None => None,
        Some(l) => match l.string {
            Some(s) => Some(s),
            None => Some(l.json),
        },
    }
}

/// The contents of a JSON string given by its text; `None` when `text`
/// is not JSON or not a string.
pub open spec fn json_string_literal(text: Seq<char>) -> Option<Seq<char>> {
    match json_literal(text) {
        Some((s, _)) => s,
        None => None,
    }
}

/// The contents of a JSON string literal.
pub(crate) fn literal_string(text: &str) -> (r: Option<String>)
    ensures
        match r {
            Some(s) => json_string_literal(text@) == Some(s@),
            None => json_string_literal(text@) is None,
        },
{
    match parse_literal(text) {
        None => None,
        Some(l) => l.string,
    }
}

/// The entries of a JSON object given by its text: each key with its
/// value's compact JSON text, in the order serde_json's map holds them;
/// `None` when `text` is not JSON or not an object.
pub uninterp spec fn json_object_entries(text: Seq<char>) -> Option<Seq<(Seq<char>, Seq<char>)>>;

/// `serde_json::from_str` into a `Value`, then, for an object, each entry
/// as its key and its value's `to_string()`. The contract names the
/// result; parsing and rendering are not stated.
#[verifier::external_body]
pub(crate) fn literal_object_entries(text: &str) -> (r: Option<Vec<(String, String)>>)
    ensures
        match r {
            Some(es) => json_object_entries(text@) matches Some(v) && v.len() == es@.len()
                && forall|i: int| 0 <= i < v.len() ==> v[i] == (es@[i].0@, es@[i].1@),
            None => json_object_entries(text@) is None,
        },
{
    match serde_json::from_str::<serde_json::Value>(text) {
        Ok(serde_json::Value::Object(m)) => Some(m.iter().map(|(k, v)| (k.clone(), v.to_string())).collect()),
        _ => None,
    }
}

/// The inner query's outcome within one outer match.
#[derive(Debug, Clone, PartialEq, Eq)]
pub enum ScopeNodes {
    /// The inner query failed there; the query engine's message.
    Failed { detail: String },
    /// The inner query's matched nodes.
    Nodes { nodes: Vec<JsonNode> },
}

impl DeepView for ScopeNodes {
    type V = Result<Seq<(bool, Seq<char>)>, Seq<char>>;

    open spec fn deep_view(&self) -> Result<Seq<(bool, Seq<char>)>, Seq<char>> {
        match self {
            ScopeNodes::Failed { detail } => Err(detail@),
            ScopeNodes::Nodes { nodes } => Ok(nodes.deep_view()),
        }
    }
}

/// What querying JSON bytes with an outer path, then each outer match
/// with an inner path, gave, keeping the inner matches.
#[derive(Debug, Clone, PartialEq, Eq)]
pub enum JsonLeavesOutcome {
    /// The bytes are not JSON; the parser's message.
    NotJson { detail: String },
    /// The outer query failed; the query engine's message.
    BadOuter { detail: String },
    /// One entry per outer match, in document order: the inner query's
    /// message when it failed there, else its matched nodes.
    Leaves { scopes: Vec<ScopeNodes> },
}

/// [`JsonLeavesOutcome`] as plain values.
pub enum JsonLeavesView {
    NotJson(Seq<char>),
    BadOuter(Seq<char>),
    Leaves(Seq<Result<Seq<(bool, Seq<char>)>, Seq<char>>>),
}

impl View for JsonLeavesOutcome {
    type V = JsonLeavesView;

    open spec fn view(&self) -> JsonLeavesView {
        match self {
            JsonLeavesOutcome::NotJson { detail } => JsonLeavesView::NotJson(detail@),
            JsonLeavesOutcome::BadOuter { detail } => JsonLeavesView::BadOuter(detail@),
            JsonLeavesOutcome::Leaves { scopes } => JsonLeavesView::Leaves(scopes.deep_view()),
        }
    }
}

/// The number of nodes the outer path matches in the JSON `bytes`;
/// `None` when the bytes are not JSON or the query fails.
pub uninterp spec fn json_outer_count(bytes: Seq<u8>, outer: Seq<char>) -> Option<nat>;

/// Per outer match of the JSON `bytes`, the inner query's nodes or
/// message.
pub uninterp spec fn json_scoped_nodes(bytes: Seq<u8>, outer: Seq<char>, inner: Seq<char>) -> JsonLeavesView;

/// `serde_json::from_slice`, jsonpath-rust's `JsonPath::query` with the
/// outer path, and the same query with the inner path on each outer
/// match, each inner node converted as [`query_json_path`] converts it.
/// The contract names the outcome, and says that its length is the outer
/// match count, which depends on the bytes and the outer path alone.
#[verifier::external_body]
pub(crate) fn query_json_leaves(bytes: &[u8], outer: &str, inner: &str) -> (r: JsonLeavesOutcome)
    ensures
        r@ == json_scoped_nodes(bytes@, outer@, inner@),
        r@ is Leaves <==> json_outer_count(bytes@, outer@) is Some,
        r@ matches JsonLeavesView::Leaves(v) ==> json_outer_count(bytes@, outer@) == Some(v.len()),
{
    let value: serde_json::Value = match serde_json::from_slice(bytes) {
        Ok(v) => v,
        Err(e) => return JsonLeavesOutcome::NotJson { detail: e.to_string() },
    };
    let node = |n: &serde_json::Value| JsonNode { is_null: n.is_null(), string: n.as_str().map(String::from), json: n.to_string() };
    match value.query(outer) {
        Err(e) => JsonLeavesOutcome::BadOuter { detail: e.to_string() },
        Ok(found) => JsonLeavesOutcome::Leaves {
            scopes: found.into_iter().map(|m| match m.query(inner) {
                Ok(ns) => ScopeNodes::Nodes { nodes: ns.into_iter().map(node).collect() },
                Err(e) => ScopeNodes::Failed { detail: e.to_string() },
            }).collect(),
        },
    }
}

// ---------------------------------------------------------------------------
// CSS selection
// ---------------------------------------------------------------------------

/// What selecting the first element of an HTML document gave.
#[derive(Debug, Clone, PartialEq, Eq)]
pub enum CssOutcome {
    /// The selector did not parse; the parser's message.
    BadSelector { detail: String },
    /// No element matched.
    NoMatch,
    /// The first match's value: its text, or the requested attribute
    /// (`None` when the element lacks it).
    Found { value: Option<String> },
}

/// [`CssOutcome`] as plain values.
pub enum CssView {
    BadSelector(Seq<char>),
    NoMatch,
    Found(Option<Seq<char>>),
}

impl View for CssOutcome {
    type V = CssView;

    open spec fn view(&self) -> CssView {
        match self {
            CssOutcome::BadSelector { detail } => CssView::BadSelector(detail@),
            CssOutcome::NoMatch => CssView::NoMatch,
            CssOutcome::Found { value } => CssView::Found(
                match value {
                    Some(v) => Some(v@),
                    None => None,
                },
            ),
        }
    }
}

/// The concatenated text of the first element of `html` that `selector`
/// matches, as scraper finds it.
pub uninterp spec fn css_first_text(html: Seq<char>, selector: Seq<char>) -> CssView;

/// The value of attribute `attr` on the first element of `html` that
/// `selector` matches, as scraper finds it.
pub uninterp spec fn css_first_attr(html: Seq<char>, selector: Seq<char>, attr: Seq<char>) -> CssView;

/// `Html::parse_document`, `Selector::parse`, the first match of
/// `select` and its `text()` collected. The contract names the outcome;
/// HTML parsing and selector matching are not stated.
#[verifier::external_body]
pub(crate) fn select_first_text(html: &str, selector: &str) -> (r: CssOutcome)
    ensures
        r@ == css_first_text(html@, selector@),
{
    let doc = scraper::Html::parse_document(html);
    let sel = match scraper::Selector::parse(selector) {
        Ok(s) => s,
        Err(e) => return CssOutcome::BadSelector { detail: e.to_string() },
    };
    match doc.select(&sel).next() {
        None => CssOutcome::NoMatch,
        Some(el) => CssOutcome::Found { value: Some(el.text().collect::<String>()) },
    }
}

/// `Html::parse_document`, `Selector::parse`, the first match of
/// `select` and its attribute `attr`. The contract names the outcome;
/// HTML parsing and selector matching are not stated.
#[verifier::external_body]
pub(crate) fn select_first_attr(html: &str, selector: &str, attr: &str) -> (r: CssOutcome)
    ensures
        r@ == css_first_attr(html@, selector@, attr@),
{
    let doc = scraper::Html::parse_document(html);
    let sel = match scraper::Selector::parse(selector) {
        Ok(s) => s,
        Err(e) => return CssOutcome::BadSelector { detail: e.to_string() },
    };
    match doc.select(&sel).next() {
        None => CssOutcome::NoMatch,
        Some(el) => CssOutcome::Found { value: el.value().attr(attr).map(|v| v.to_string()) },
    }
}

/// What selecting repeated elements with an outer selector, and counting
/// an inner selector's matches within each, gave.
#[derive(Debug, Clone, PartialEq, Eq)]
pub enum CssScopesOutcome {
    /// The outer selector did not parse; the parser's message.
    BadOuter { detail: String },
    /// The inner selector did not parse; the parser's message.
    BadInner { detail: String },
    /// One entry per element the outer selector matched, in document
    /// order: how many elements the inner selector matches within it.
    Scopes { inner_counts: Vec<usize> },
}

/// [`CssScopesOutcome`] as plain values.
pub enum CssScopesView {
    BadOuter(Seq<char>),
    BadInner(Seq<char>),
    Scopes(Seq<usize>),
}

impl View for CssScopesOutcome {
    type V = CssScopesView;

    open spec fn view(&self) -> CssScopesView {
        match self {
            CssScopesOutcome::BadOuter { detail } => CssScopesView::BadOuter(detail@),
            CssScopesOutcome::BadInner { detail } => CssScopesView::BadInner(detail@),
            CssScopesOutcome::Scopes { inner_counts } => CssScopesView::Scopes(inner_counts@),
        }
    }
}

/// What selecting repeated elements with an outer selector, and reading
/// the first match of an inner selector within each, gave.
#[derive(Debug, Clone, PartialEq, Eq)]
pub enum CssLeavesOutcome {
    /// The outer selector did not parse; the parser's message.
    BadOuter { detail: String },
    /// The inner selector did not parse; the parser's message.
    BadInner { detail: String },
    /// One entry per outer match, in document order: `None` when the
    /// inner selector matches nothing within it, else the first inner
    /// match's text (or its attribute, `None` when it lacks it).
    Leaves { values: Vec<Option<Option<String>>> },
}

/// [`CssLeavesOutcome`] as plain values.
pub enum CssLeavesView {
    BadOuter(Seq<char>),
    BadInner(Seq<char>),
    Leaves(Seq<Option<Option<Seq<char>>>>),
}

impl View for CssLeavesOutcome {
    type V = CssLeavesView;

    open spec fn view(&self) -> CssLeavesView {
        match self {
            CssLeavesOutcome::BadOuter { detail } => CssLeavesView::BadOuter(detail@),
            CssLeavesOutcome::BadInner { detail } => CssLeavesView::BadInner(detail@),
            CssLeavesOutcome::Leaves { values } => CssLeavesView::Leaves(values.deep_view()),
        }
    }
}

/// The number of elements of `html` the outer selector matches; `None`
/// when it does not parse.
pub uninterp spec fn css_outer_count(html: Seq<char>, outer: Seq<char>) -> Option<nat>;

/// The parser's message for a CSS selector that does not parse.
pub uninterp spec fn css_selector_error(selector: Seq<char>) -> Seq<char>;

/// `Html::parse_document`, `Selector::parse`, and the number of elements
/// `select` yields; the parse error's message when the selector does not
/// parse. The contract names both.
#[verifier::external_body]
pub(crate) fn count_css_matches(html: &str, selector: &str) -> (r: Result<usize, String>)
    ensures
        match r {
            Ok(n) => css_outer_count(html@, selector@) == Some(n as nat),
            Err(d) => css_outer_count(html@, selector@) is None && d@ == css_selector_error(selector@),
        },
{
    let doc = scraper::Html::parse_document(html);
    match scraper::Selector::parse(selector) {
        Ok(s) => Ok(doc.select(&s).count()),
        Err(e) => Err(e.to_string()),
    }
}

/// One element a selector matched: its collected text and, where an
/// attribute was asked for, that attribute's value (`None` when the
/// element lacks it).
#[derive(Debug, Clone, PartialEq, Eq)]
pub struct CssElement {
    pub text: String,
    pub attr: Option<String>,
}

impl View for CssElement {
    type V = (Seq<char>, Option<Seq<char>>);

    open spec fn view(&self) -> (Seq<char>, Option<Seq<char>>) {
        (self.text@, crate::strings::opt_string_view(self.attr))
    }
}

impl DeepView for CssElement {
    type V = (Seq<char>, Option<Seq<char>>);

    open spec fn deep_view(&self) -> (Seq<char>, Option<Seq<char>>) {
        self@
    }
}

/// What selecting repeated elements with an outer selector, and every
/// match of an inner selector within each, gave.
#[derive(Debug, Clone, PartialEq, Eq)]
pub enum CssMatchesOutcome {
    /// The outer selector did not parse; the parser's message.
    BadOuter { detail: String },
    /// The inner selector did not parse; the parser's message.
    BadInner { detail: String },
    /// One entry per outer match, in document order: the inner matches
    /// within it, in document order.
    Scopes { scopes: Vec<Vec<CssElement>> },
}

/// [`CssMatchesOutcome`] as plain values.
pub enum CssMatchesView {
    BadOuter(Seq<char>),
    BadInner(Seq<char>),
    Scopes(Seq<Seq<(Seq<char>, Option<Seq<char>>)>>),
}

impl View for CssMatchesOutcome {
    type V = CssMatchesView;

    open spec fn view(&self) -> CssMatchesView {
        match self {
            CssMatchesOutcome::BadOuter { detail } => CssMatchesView::BadOuter(detail@),
            CssMatchesOutcome::BadInner { detail } => CssMatchesView::BadInner(detail@),
            CssMatchesOutcome::Scopes { scopes } => CssMatchesView::Scopes(scopes.deep_view()),
        }
    }
}

/// Per outer match of `html`, the inner matches with their text and the
/// attribute `attr`, as scraper finds them.
pub uninterp spec fn css_scoped_matches(html: Seq<char>, outer: Seq<char>, inner: Seq<char>, attr: Option<Seq<char>>) -> CssMatchesView;

/// `Html::parse_document`, `Selector::parse` of both selectors (outer
/// first), and for each element `select` yields for the outer selector,
/// the elements its own `select` yields for the inner one, each read as
/// its collected `text()` and its attribute `attr`. The contract names
/// the outcome, and says that its length is the outer match count, which
/// depends on the page and the outer selector alone.
#[verifier::external_body]
pub(crate) fn select_scoped_matches(html: &str, outer: &str, inner: &str, attr: Option<&str>) -> (r: CssMatchesOutcome)
    ensures
        r@ == css_scoped_matches(html@, outer@, inner@, crate::strings::opt_str_view(attr)),
        r@ is BadOuter <==> css_outer_count(html@, outer@) is None,
        r@ matches CssMatchesView::Scopes(v) ==> css_outer_count(html@, outer@) == Some(v.len()),
{
    let doc = scraper::Html::parse_document(html);
    let o = match scraper::Selector::parse(outer) {
        Ok(s) => s,
        Err(e) => return CssMatchesOutcome::BadOuter { detail: e.to_string() },
    };
    let i = match scraper::Selector::parse(inner) {
        Ok(s) => s,
        Err(e) => return CssMatchesOutcome::BadInner { detail: e.to_string() },
    };
    let read = |el: scraper::ElementRef| CssElement { text: el.text().collect(), attr: attr.and_then(|a| el.value().attr(a)).map(String::from) };
    CssMatchesOutcome::Scopes { scopes: doc.select(&o).map(|m| m.select(&i).map(read).collect()).collect() }
}

/// What one outer match gives: nothing when the inner selector matches
/// nothing within it, else its first inner match's text (or, where an
/// attribute is asked for, that attribute's value).
pub open spec fn first_leaf(scope: Seq<(Seq<char>, Option<Seq<char>>)>, attr: Option<Seq<char>>) -> Option<Option<Seq<char>>> {
    if scope.len() == 0 {
        None
    } else {
        match attr {
            None => Some(Some(scope[0].0)),
            Some(_) => Some(scope[0].1),
        }
    }
}

/// Per outer match of `html`, the first inner match's text or attribute.
pub open spec fn css_scoped_leaf(html: Seq<char>, outer: Seq<char>, inner: Seq<char>, attr: Option<Seq<char>>) -> CssLeavesView {
    match css_scoped_matches(html, outer, inner, attr) {
        CssMatchesView::BadOuter(d) => CssLeavesView::BadOuter(d),
        CssMatchesView::BadInner(d) => CssLeavesView::BadInner(d),
        CssMatchesView::Scopes(v) => CssLeavesView::Leaves(Seq::new(v.len(), |k: int| first_leaf(v[k], attr))),
    }
}

/// Per outer match of `html`, the number of inner matches.
pub open spec fn css_scopes(html: Seq<char>, outer: Seq<char>, inner: Seq<char>) -> CssScopesView {
    match css_scoped_matches(html, outer, inner, None) {
        CssMatchesView::BadOuter(d) => CssScopesView::BadOuter(d),
        CssMatchesView::BadInner(d) => CssScopesView::BadInner(d),
        CssMatchesView::Scopes(v) => CssScopesView::Scopes(Seq::new(v.len(), |k: int| v[k].len() as usize)),
    }
}

/// Per outer match of `html`, the first inner match's text or attribute.
pub(crate) fn select_scoped_leaves(html: &str, outer: &str, inner: &str, attr: Option<&str>) -> (r: CssLeavesOutcome)
    ensures
        r@ == css_scoped_leaf(html@, outer@, inner@, crate::strings::opt_str_view(attr)),
        r@ is BadOuter <==> css_outer_count(html@, outer@) is None,
        r@ matches CssLeavesView::Leaves(v) ==> css_outer_count(html@, outer@) == Some(v.len()),
{
    let scopes = match select_scoped_matches(html, outer, inner, attr) {
        CssMatchesOutcome::BadOuter { detail } => return CssLeavesOutcome::BadOuter { detail },
        CssMatchesOutcome::BadInner { detail } => return CssLeavesOutcome::BadInner { detail },
        CssMatchesOutcome::Scopes { scopes } => scopes,
    };
    let ghost v = scopes.deep_view();
    let ghost a = crate::strings::opt_str_view(attr);
    let mut values: Vec<Option<Option<String>>> = Vec::new();
    let mut k: usize = 0;
    while k < scopes.len()
        invariant
            k <= scopes@.len(),
            v == scopes.deep_view(),
            a == crate::strings::opt_str_view(attr),
            values@.len() == k,
            forall|j: int| 0 <= j < k ==> (#[trigger] values@[j]).deep_view() == first_leaf(v[j], a),
        decreases scopes@.len() - k,
    {
        let scope = &scopes[k];
        assert(v[k as int] == scope.deep_view());
        let leaf: Option<Option<String>> = if scope.len() == 0 {
            None
        } else {
            assert(scope.deep_view()[0] == scope@[0]@);
            match attr {
                None => Some(Some(scope[0].text.clone())),
                Some(_) => match &scope[0].attr {
                    Some(x) => Some(Some(x.clone())),
                    None => Some(None),
                },
            }
        };
        values.push(leaf);
        k += 1;
    }
    assert(values.deep_view() =~= Seq::new(v.len(), |j: int| first_leaf(v[j], a)));
    CssLeavesOutcome::Leaves { values }
}

/// Per outer match of `html`, how many elements the inner selector
/// matches within it.
pub(crate) fn select_scoped(html: &str, outer: &str, inner: &str) -> (r: CssScopesOutcome)
    ensures
        r@ == css_scopes(html@, outer@, inner@),
{
    let scopes = match select_scoped_matches(html, outer, inner, None) {
        CssMatchesOutcome::BadOuter { detail } => return CssScopesOutcome::BadOuter { detail },
        CssMatchesOutcome::BadInner { detail } => return CssScopesOutcome::BadInner { detail },
        CssMatchesOutcome::Scopes { scopes } => scopes,
    };
    let ghost v = scopes.deep_view();
    let mut counts: Vec<usize> = Vec::new();
    let mut k: usize = 0;
    while k < scopes.len()
        invariant
            k <= scopes@.len(),
            v == scopes.deep_view(),
            counts@.len() == k,
            forall|j: int| 0 <= j < k ==> #[trigger] counts@[j] == v[j].len() as usize,
        decreases scopes@.len() - k,
    {
        assert(v[k as int] == scopes@[k as int].deep_view());
        counts.push(scopes[k].len());
        k += 1;
    }
    assert(counts@ =~= Seq::new(v.len(), |j: int| v[j].len() as usize));
    CssScopesOutcome::Scopes { inner_counts: counts }
}

// ---------------------------------------------------------------------------
// CSV
// ---------------------------------------------------------------------------

/// One CSV record: its fields, or the reader's message for a bad row.
#[derive(Debug, Clone, PartialEq, Eq)]
pub enum CsvRow {
    Fields { cells: Vec<String> },
    Bad { detail: String },
}

/// What reading CSV bytes with a header row and trimmed fields gave.
#[derive(Debug, Clone, PartialEq, Eq)]
pub enum CsvOutcome {
    /// The header row could not be read; the reader's message.
    BadHeaders { detail: String },
    /// The header fields and every following record, in order.
    Table { headers: Vec<String>, rows: Vec<CsvRow> },
}

impl View for CsvRow {
    type V = Result<Seq<Seq<char>>, Seq<char>>;

    open spec fn view(&self) -> Result<Seq<Seq<char>>, Seq<char>> {
        match self {
            CsvRow::Fields { cells } => Ok(cells.deep_view()),
            CsvRow::Bad { detail } => Err(detail@),
        }
    }
}

impl DeepView for CsvRow {
    type V = Result<Seq<Seq<char>>, Seq<char>>;

    open spec fn deep_view(&self) -> Result<Seq<Seq<char>>, Seq<char>> {
        self@
    }
}

/// [`CsvOutcome`] as plain values.
pub enum CsvView {
    BadHeaders(Seq<char>),
    Table(Seq<Seq<char>>, Seq<Result<Seq<Seq<char>>, Seq<char>>>),
}

impl View for CsvOutcome {
    type V = CsvView;

    open spec fn view(&self) -> CsvView {
        match self {
            CsvOutcome::BadHeaders { detail } => CsvView::BadHeaders(detail@),
            CsvOutcome::Table { headers, rows } => CsvView::Table(headers.deep_view(), rows.deep_view()),
        }
    }
}

/// What the csv reader yields for `bytes`.
pub uninterp spec fn csv_table(bytes: Seq<u8>) -> CsvView;

/// `ReaderBuilder::new().has_headers(true).trim(Trim::All)` over the
/// bytes: `headers()`, then every item of `records()`. The contract
/// names the outcome; CSV parsing and trimming are not stated.
#[verifier::external_body]
pub(crate) fn read_csv(bytes: &[u8]) -> (r: CsvOutcome)
    ensures
        r@ == csv_table(bytes@),
{
    let mut reader = csv::ReaderBuilder::new().has_headers(true).trim(csv::Trim::All).from_reader(bytes);
    let headers = match reader.headers() {
        Ok(h) => h.iter().map(String::from).collect(),
        Err(e) => return CsvOutcome::BadHeaders { detail: e.to_string() },
    };
    let rows = reader.records().map(|rec| match rec {
        Ok(r) => CsvRow::Fields { cells: r.iter().map(String::from).collect() },
        Err(e) => CsvRow::Bad { detail: e.to_string() },
    }).collect();
    CsvOutcome::Table { headers, rows }
}

// ---------------------------------------------------------------------------
// Regular expressions
// ---------------------------------------------------------------------------

/// What matching a pattern once against a text gave.
#[derive(Debug, Clone, PartialEq, Eq)]
pub enum RegexOutcome {
    /// The pattern did not compile; the compiler's message.
    BadPattern { detail: String },
    /// The pattern did not match.
    NoMatch,
    /// The first match has no such capture group.
    NoGroup,
    /// The text of the capture group in the first match.
    Captured { text: String },
}

/// [`RegexOutcome`] as plain values.
pub enum RegexView {
    BadPattern(Seq<char>),
    NoMatch,
    NoGroup,
    Captured(Seq<char>),
}

impl View for RegexOutcome {
    type V = RegexView;

    open spec fn view(&self) -> RegexView {
        match self {
            RegexOutcome::BadPattern { detail } => RegexView::BadPattern(detail@),
            RegexOutcome::NoMatch => RegexView::NoMatch,
            RegexOutcome::NoGroup => RegexView::NoGroup,
            RegexOutcome::Captured { text } => RegexView::Captured(text@),
        }
    }
}

/// Capture group `group` of the first match of `pattern` in `text`.
pub uninterp spec fn regex_capture(text: Seq<char>, pattern: Seq<char>, group: nat) -> RegexView;

/// `Regex::new`, `captures` and `Captures::get`. The contract names the
/// outcome; pattern syntax and matching are not stated.
#[verifier::external_body]
pub(crate) fn capture_group(text: &str, pattern: &str, group: usize) -> (r: RegexOutcome)
    ensures
        r@ == regex_capture(text@, pattern@, group as nat),
{
    let re = match regex::Regex::new(pattern) {
        Ok(re) => re,
        Err(e) => return RegexOutcome::BadPattern { detail: e.to_string() },
    };
    match re.captures(text) {
        None => RegexOutcome::NoMatch,
        Some(caps) => match caps.get(group) {
            None => RegexOutcome::NoGroup,
            Some(m) => RegexOutcome::Captured { text: m.as_str().to_string() },
        },
    }
}

// ---------------------------------------------------------------------------
// JSON text
// ---------------------------------------------------------------------------

/// The parser's message when `text` is not one JSON document.
pub uninterp spec fn json_text_error(text: Seq<char>) -> Option<Seq<char>>;

/// `serde_json::from_str::<serde_json::Value>`: `None` when `text` parses,
/// otherwise the error's message. The contract names the outcome; the
/// JSON grammar is not stated.
#[verifier::external_body]
pub(crate) fn json_text_check(text: &str) -> (r: Option<String>)
    ensures
        match r {
            Some(e) => json_text_error(text@) == Some(e@),
            None => json_text_error(text@) is None,
        },
{
    serde_json::from_str::<serde_json::Value>(text).err().map(|e| e.to_string())
}

// ---------------------------------------------------------------------------
// URLs
// ---------------------------------------------------------------------------

/// What `url::Url::parse` gives for `text`: the URL's serialization, or
/// the error's message.
pub uninterp spec fn url_parse(text: Seq<char>) -> Result<Seq<char>, Seq<char>>;

/// `url::Url::parse`, the URL converted to its serialization. The
/// contract names the outcome; the URL standard's parsing rules are not
/// stated.
#[verifier::external_body]
pub(crate) fn parse_url(text: &str) -> (r: Result<String, String>)
    ensures
        match r {
            Ok(u) => url_parse(text@) == Ok::<Seq<char>, Seq<char>>(u@),
            Err(e) => url_parse(text@) == Err::<Seq<char>, Seq<char>>(e@),
        },
{
    url::Url::parse(text).map(|u| u.to_string()).map_err(|e| e.to_string())
}

// ---------------------------------------------------------------------------
// Digests and UUIDs
// ---------------------------------------------------------------------------

/// The SHA-256 digest of `bytes`.
pub uninterp spec fn sha256_digest(bytes: Seq<u8>) -> Seq<u8>;

/// `sha2::Sha256::digest`: the 32-byte SHA-256 digest. The contract
/// names the digest and states its documented length.
#[verifier::external_body]
pub(crate) fn sha256(bytes: &[u8]) -> (r: Vec<u8>)
    ensures
        r@ == sha256_digest(bytes@),
        r@.len() == 32,
{
    <sha2::Sha256 as sha2::Digest>::digest(bytes).to_vec()
}

/// What `uuid::Uuid::parse_str` accepts `text` as, in canonical
/// hyphenated lower-case text.
pub uninterp spec fn uuid_parse(text: Seq<char>) -> Option<Seq<char>>;

/// `uuid::Uuid::parse_str`, the UUID rendered in canonical hyphenated
/// text (36 characters). The contract names the outcome; the accepted
/// input formats are not stated.
#[verifier::external_body]
pub(crate) fn parse_uuid(text: &str) -> (r: Option<String>)
    ensures
        match r {
            Some(u) => uuid_parse(text@) == Some(u@) && u@.len() == 36,
            None => uuid_parse(text@) is None,
        },
{
    uuid::Uuid::parse_str(text).ok().map(|u| u.to_string())
}

} // verus!
