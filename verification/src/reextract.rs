//! Re-extraction of relation assertions from stored documents: the
//! per-plan report and the routing of a document back to its recipe.

use vstd::prelude::*;
use vstd::utf8::{
    decode_utf8, encode_scalar, encode_utf8, encode_utf8_decode_utf8, encode_utf8_valid_utf8, is_ascii_chars,
    is_ascii_chars_encode_utf8, valid_utf8,
};
use crate::bytes::{find_from, find_subseq_from};
use crate::parsers::{parse_uuid, uuid_parse};
use crate::recipe_apply::spec_recipe_source_id;
use crate::text::{decimal, digit_char};
use crate::strings::{copy_range, utf8_str};
use crate::text::str_eq;

verus! {

/// Per-plan re-extraction summary.
#[derive(Debug, Clone, PartialEq, Eq)]
pub struct ReextractReport {
    pub documents_considered: u32,
    pub documents_unrouted: u32,
    pub assertions_extracted: u32,
    pub assertions_persisted: u32,
    pub assertion_insert_failures: u32,
    pub llm_call_errors: u32,
}

impl Default for ReextractReport {
    fn default() -> (r: Self)
        ensures
            r.documents_considered == 0,
            r.documents_unrouted == 0,
            r.assertions_extracted == 0,
            r.assertions_persisted == 0,
            r.assertion_insert_failures == 0,
            r.llm_call_errors == 0,
    {
        ReextractReport {
            documents_considered: 0,
            documents_unrouted: 0,
            assertions_extracted: 0,
            assertions_persisted: 0,
            assertion_insert_failures: 0,
            llm_call_errors: 0,
        }
    }
}

/// The bytes of `#recipe:`.
pub open spec fn recipe_marker() -> Seq<u8> {
    seq![35u8, 114u8, 101u8, 99u8, 105u8, 112u8, 101u8, 58u8]
}

/// The text between the first `#recipe:` marker and the next `@` (or the
/// next marker, or the end).
pub open spec fn recipe_id_candidate(b: Seq<u8>) -> Option<Seq<u8>> {
    match find_from(b, recipe_marker(), 0) {
        None => None,
        Some(i) => {
            let start = i + recipe_marker().len();
            let end = match find_from(b, recipe_marker(), start) {
                Some(j) => j,
                None => b.len() as int,
            };
            let piece = b.subrange(start, end);
            let stop = match find_from(piece, seq![64u8], 0) {
                Some(k) => k,
                None => piece.len() as int,
            };
            Some(piece.subrange(0, stop))
        },
    }
}

/// The recipe UUID of a `{source}#recipe:{uuid}@v{version}` source id,
/// in canonical text; `None` when the marker is missing or the text
/// after it does not parse as a UUID.
pub open spec fn spec_parse_recipe_id(b: Seq<u8>) -> Option<Seq<char>> {
    match recipe_id_candidate(b) {
        None => None,
        Some(c) => if valid_utf8(c) {
            uuid_parse(decode_utf8(c))
        } else {
            None
        },
    }
}

/// Law: a source id without the `#recipe:` marker routes to no recipe,
/// whatever else it holds (a bare UUID, a plan-keyed id, `#recipe-`).
pub proof fn law_unmarked_source_ids_do_not_route(b: Seq<u8>)
    requires
        forall|j: int| !crate::bytes::occurs_at(b, j, recipe_marker()),
    ensures
        spec_parse_recipe_id(b) is None,
{
    crate::bytes::lemma_find_from(b, recipe_marker(), 0);
}

/// Parse the recipe UUID out of a canonical recipe-routed source id.
pub fn parse_recipe_id_from_source_id(source_id: &str) -> (r: Option<String>)
    ensures
        match r {
            Some(u) => spec_parse_recipe_id(encode_utf8(source_id@)) == Some(u@),
            None => spec_parse_recipe_id(encode_utf8(source_id@)) is None,
        },
{
    let b = source_id.as_bytes();
    let marker: Vec<u8> = vec![35u8, 114u8, 101u8, 99u8, 105u8, 112u8, 101u8, 58u8];
    assert(marker@ =~= recipe_marker());
    let i = match find_subseq_from(b, marker.as_slice(), 0) {
        None => {
            return None;
        },
        Some(i) => i,
    };
    proof {
        crate::bytes::lemma_find_from(b@, recipe_marker(), 0);
        assert(recipe_marker().len() == 8);
        assert(crate::bytes::occurs_at(b@, i as int, recipe_marker()));
    }
    let len = b.len();
    let start = i + 8;
    let end = match find_subseq_from(b, marker.as_slice(), start) {
        Some(j) => j,
        None => len,
    };
    proof {
        crate::bytes::lemma_find_from(b@, recipe_marker(), start as int);
    }
    let piece = copy_range(b, start, end);
    let at: Vec<u8> = vec![64u8];
    assert(at@ =~= seq![64u8]);
    let stop = match find_subseq_from(piece.as_slice(), at.as_slice(), 0) {
        Some(k) => k,
        None => piece.len(),
    };
    proof {
        crate::bytes::lemma_find_from(piece@, seq![64u8], 0);
    }
    let candidate = copy_range(piece.as_slice(), 0, stop);
    match utf8_str(candidate.as_slice()) {
        Err(_) => None,
        Ok(text) => parse_uuid(text.as_str()),
    }
}

/// The recipe a document routes to, among the plan's recipes by id: the
/// last one whose id is the UUID its source id names. Later recipes
/// with a repeated id win, as they do when the ids are collected into a
/// map.
pub open spec fn routes_to(source_id: Seq<char>, recipe_ids: Seq<Seq<char>>, r: Option<usize>) -> bool {
    match spec_parse_recipe_id(encode_utf8(source_id)) {
        None => r is None,
        Some(u) => match r {
            Some(k) => k < recipe_ids.len() && recipe_ids[k as int] == u && forall|j: int|
                k < j < recipe_ids.len() ==> #[trigger] recipe_ids[j] != u,
            None => forall|j: int| 0 <= j < recipe_ids.len() ==> #[trigger] recipe_ids[j] != u,
        },
    }
}

/// Route a stored document back to its recipe: the index among
/// `recipe_ids` of the recipe its source id names, or `None` when the
/// source id names none of them.
pub fn route_document(source_id: &str, recipe_ids: &Vec<String>) -> (r: Option<usize>)
    ensures
        routes_to(source_id@, recipe_ids.deep_view(), r),
{
    let id = match parse_recipe_id_from_source_id(source_id) {
        None => {
            return None;
        },
        Some(id) => id,
    };
    let ghost ids = recipe_ids.deep_view();
    let mut k: usize = recipe_ids.len();
    while k > 0
        invariant
            k <= recipe_ids.len(),
            ids == recipe_ids.deep_view(),
            spec_parse_recipe_id(encode_utf8(source_id@)) == Some(id@),
            forall|j: int| k <= j < ids.len() ==> #[trigger] ids[j] != id@,
        decreases k,
    {
        assert(ids[k - 1] == recipe_ids@[k - 1]@);
        if str_eq(recipe_ids[k - 1].as_str(), id.as_str()) {
            return Some(k - 1);
        }
        k -= 1;
    }
    None
}

/// What re-extraction did with one eligible document.
#[derive(Debug, Clone, PartialEq, Eq)]
pub enum DocumentOutcome {
    /// Its source id routes to no recipe of the plan.
    Unrouted,
    /// The extractor ran: how many drafts it extracted and persisted,
    /// how many inserts failed, and whether its model call failed.
    Extracted { extracted: u32, persisted: u32, insert_failures: u32, call_failed: bool },
}

/// The report after one eligible document.
pub open spec fn spec_record_document(r: ReextractReport, outcome: DocumentOutcome) -> ReextractReport {
    let r1 = ReextractReport { documents_considered: (r.documents_considered + 1) as u32, ..r };
    match outcome {
        DocumentOutcome::Unrouted => ReextractReport { documents_unrouted: (r.documents_unrouted + 1) as u32, ..r1 },
        DocumentOutcome::Extracted { extracted, persisted, insert_failures, call_failed } => ReextractReport {
            assertions_extracted: (r.assertions_extracted + extracted) as u32,
            assertions_persisted: (r.assertions_persisted + persisted) as u32,
            assertion_insert_failures: (r.assertion_insert_failures + insert_failures) as u32,
            llm_call_errors: if call_failed { (r.llm_call_errors + 1) as u32 } else { r.llm_call_errors },
            ..r1
        },
    }
}

/// Counting the document overflows no counter.
pub open spec fn can_record_document(r: ReextractReport, outcome: DocumentOutcome) -> bool {
    &&& r.documents_considered < u32::MAX
    &&& match outcome {
        DocumentOutcome::Unrouted => r.documents_unrouted < u32::MAX,
        DocumentOutcome::Extracted { extracted, persisted, insert_failures, call_failed } => {
            &&& r.assertions_extracted + extracted <= u32::MAX
            &&& r.assertions_persisted + persisted <= u32::MAX
            &&& r.assertion_insert_failures + insert_failures <= u32::MAX
            &&& call_failed ==> r.llm_call_errors < u32::MAX
        },
    }
}

/// Each document counted as unrouted or as a failed model call was also
/// counted as considered, and no document is both.
pub open spec fn reextract_consistent(r: ReextractReport) -> bool {
    r.documents_unrouted + r.llm_call_errors <= r.documents_considered
}

/// Count one eligible document: it is considered; an unrouted one is
/// counted as such; an extracted one adds its counts and, if its model
/// call failed, one call error.
pub fn record_document(report: &mut ReextractReport, outcome: &DocumentOutcome)
    requires
        can_record_document(*old(report), *outcome),
    ensures
        *final(report) == spec_record_document(*old(report), *outcome),
        reextract_consistent(*old(report)) ==> reextract_consistent(*final(report)),
{
    report.documents_considered += 1;
    match outcome {
        DocumentOutcome::Unrouted => {
            report.documents_unrouted += 1;
        },
        DocumentOutcome::Extracted { extracted, persisted, insert_failures, call_failed } => {
            report.assertions_extracted += *extracted;
            report.assertions_persisted += *persisted;
            report.assertion_insert_failures += *insert_failures;
            if *call_failed {
                report.llm_call_errors += 1;
            }
        },
    }
}

// ---------------------------------------------------------------------------
// Round trip of the recipe-routed source id
// ---------------------------------------------------------------------------

proof fn lemma_encode_concat(a: Seq<char>, b: Seq<char>)
    ensures
        encode_utf8(a + b) == encode_utf8(a) + encode_utf8(b),
    decreases a.len(),
{
    if a.len() == 0 {
        assert(a + b =~= b);
        assert(encode_utf8(a) =~= Seq::<u8>::empty());
        assert(encode_utf8(a) + encode_utf8(b) =~= encode_utf8(b));
    } else {
        let ab = a + b;
        assert(ab[0] == a[0]);
        assert(ab.drop_first() =~= a.drop_first() + b);
        lemma_encode_concat(a.drop_first(), b);
        assert(encode_utf8(ab) == encode_scalar(a[0] as u32) + encode_utf8(a.drop_first() + b));
        assert(encode_utf8(a) == encode_scalar(a[0] as u32) + encode_utf8(a.drop_first()));
        assert(encode_utf8(ab) =~= encode_utf8(a) + encode_utf8(b));
    }
}

proof fn lemma_find_from_first(h: Seq<u8>, needle: Seq<u8>, k: int, p: int)
    requires
        0 <= k <= p,
        crate::bytes::occurs_at(h, p, needle),
        forall|j: int| k <= j < p ==> !crate::bytes::occurs_at(h, j, needle),
    ensures
        find_from(h, needle, k) == Some(p),
    decreases p - k,
{
    if k < p {
        assert(!crate::bytes::occurs_at(h, k, needle));
        lemma_find_from_first(h, needle, k + 1, p);
    }
}

/// A character of a UUID's canonical text: a lower-case hexadecimal
/// digit or a hyphen.
pub open spec fn is_uuid_text_char(c: char) -> bool {
    ('0' <= c && c <= '9') || ('a' <= c && c <= 'f') || c == '-'
}

proof fn lemma_decimal_digits(n: nat)
    ensures
        forall|i: int| 0 <= i < decimal(n).len() ==> '0' <= #[trigger] decimal(n)[i] <= '9',
    decreases n,
{
    if n >= 10 {
        lemma_decimal_digits(n / 10);
        assert forall|i: int| 0 <= i < decimal(n).len() implies '0' <= #[trigger] decimal(n)[i] <= '9' by {
            if i < decimal(n / 10).len() {
                assert(decimal(n)[i] == decimal(n / 10)[i]);
            } else {
                assert(decimal(n)[i] == digit_char(n % 10));
            }
        }
    } else {
        assert(decimal(n)[0] == digit_char(n));
    }
}

/// Law: the source id a recipe stamps on its records routes back to that
/// recipe: parsing it gives the recipe's id, for every version, as long
/// as the recipe's source does not itself hold `#recipe:` and its id is a
/// UUID in canonical text.
pub proof fn law_recipe_source_id_routes_back(source_id: Seq<char>, recipe_id: Seq<char>, version: nat)
    requires
        forall|j: int| !crate::bytes::occurs_at(encode_utf8(source_id), j, recipe_marker()),
        forall|i: int| 0 <= i < recipe_id.len() ==> is_uuid_text_char(#[trigger] recipe_id[i]),
        uuid_parse(recipe_id) == Some(recipe_id),
    ensures
        spec_parse_recipe_id(encode_utf8(spec_recipe_source_id(source_id, recipe_id, version))) == Some(recipe_id),
{
    reveal_strlit("#recipe:");
    reveal_strlit("@v");
    let marker_text = "#recipe:"@;
    let tail_text = "@v"@ + decimal(version);
    lemma_decimal_digits(version);
    assert(marker_text =~= seq!['#', 'r', 'e', 'c', 'i', 'p', 'e', ':']);
    assert(is_ascii_chars(marker_text));
    is_ascii_chars_encode_utf8(marker_text);
    let m = recipe_marker();
    assert(encode_utf8(marker_text) =~= m);
    assert(is_ascii_chars(recipe_id));
    is_ascii_chars_encode_utf8(recipe_id);
    assert forall|i: int| 0 <= i < tail_text.len() implies '\0' <= #[trigger] tail_text[i] <= '\u{7f}' by {
        if i >= 2 {
            assert(tail_text[i] == decimal(version)[i - 2]);
        }
    }
    assert(is_ascii_chars(tail_text));
    is_ascii_chars_encode_utf8(tail_text);
    let s = encode_utf8(source_id);
    let u = encode_utf8(recipe_id);
    let t = encode_utf8(tail_text);
    let full = spec_recipe_source_id(source_id, recipe_id, version);
    assert(full =~= source_id + marker_text + recipe_id + tail_text);
    lemma_encode_concat(source_id + marker_text + recipe_id, tail_text);
    lemma_encode_concat(source_id + marker_text, recipe_id);
    lemma_encode_concat(source_id, marker_text);
    let b = encode_utf8(full);
    assert(b =~= s + m + u + t);
    let sl = s.len() as int;
    // The first marker is the one written after the source.
    assert(b.subrange(sl, sl + 8) =~= m);
    assert forall|j: int| 0 <= j < sl implies !crate::bytes::occurs_at(b, j, m) by {
        if crate::bytes::occurs_at(b, j, m) {
            if j + 8 <= sl {
                assert(s.subrange(j, j + 8) =~= b.subrange(j, j + 8));
                assert(crate::bytes::occurs_at(s, j, m));
            } else {
                let d = sl - j;
                assert(b[sl] == m[0]);
                assert(b.subrange(j, j + 8)[d] == b[sl]);
                assert(m[d] == 35u8);
            }
        }
    }
    lemma_find_from_first(b, m, 0, sl);
    // No marker follows: the id and the version hold no `#`.
    let start = sl + 8;
    crate::bytes::lemma_find_from(b, m, start);
    assert forall|j: int| start <= j < b.len() implies b[j] != 35u8 by {
        if j < start + u.len() {
            assert(b[j] == u[j - start]);
            assert(u[j - start] == recipe_id[j - start] as u8);
        } else {
            assert(b[j] == t[j - start - u.len()]);
            let k = j - start - u.len();
            assert(t[k] == tail_text[k] as u8);
        }
    }
    if let Some(j) = find_from(b, m, start) {
        assert(b.subrange(j, j + 8)[0] == b[j]);
        assert(false);
    }
    let piece = b.subrange(start, b.len() as int);
    assert(piece =~= u + t);
    // The first `@` ends the id.
    let at = seq![64u8];
    assert forall|j: int| 0 <= j < u.len() implies !crate::bytes::occurs_at(piece, j, at) by {
        assert(piece.subrange(j, j + 1)[0] == piece[j]);
        assert(piece[j] == u[j]);
        assert(u[j] == recipe_id[j] as u8);
    }
    assert(t[0] == tail_text[0] as u8);
    assert(piece.subrange(u.len() as int, u.len() as int + 1) =~= at);
    lemma_find_from_first(piece, at, 0, u.len() as int);
    assert(piece.subrange(0, u.len() as int) =~= u);
    encode_utf8_valid_utf8(recipe_id);
    encode_utf8_decode_utf8(recipe_id);
}

} // verus!
