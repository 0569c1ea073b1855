//! Apply-time index-page detector: reads fetched bytes, the response MIME
//! type and the fetched URL, and tells whether the page looks like an
//! article, an index (link listing) or cannot be decided.
//!
//! Every signal is structural: link-text density, a generic listing token
//! in the URL path, and a floor on the amount of prose outside links.

use vstd::prelude::*;
use vstd::utf8::valid_utf8;
use vstd::string::StringSliceAdditionalSpecFns;
use crate::strings::{copy_range, is_valid_utf8};
use crate::bytes::{lower_bytes, ci_at, ci_match_at, find_from, find_subseq, find_subseq_from, lemma_find_from, lower_byte, lower_u8, occurs_at, spec_find_subseq};

verus! {

/// The detector's read of fetched bytes.
#[derive(Debug, Clone, Copy, PartialEq, Eq, Structural)]
pub enum IndexPageSignal {
    /// Prose dominates, link density is low, no listing token in the URL.
    Article,
    /// The URL carries a listing token, links dominate, or there is too
    /// little prose to extract.
    Index,
    /// Not HTML, not UTF-8, or too little content to decide.
    Unknown,
}

impl IndexPageSignal {
    /// Snake-case label of the signal.
    pub open spec fn spec_label(self) -> Seq<char> {
        match self {
            IndexPageSignal::Article => "article"@,
            IndexPageSignal::Index => "index"@,
            IndexPageSignal::Unknown => "unknown"@,
        }
    }

    /// Short snake_case label for log fields.
    pub fn label(self) -> (r: &'static str)
        ensures
            r@ == self.spec_label(),
    {
        match self {
            IndexPageSignal::Article => "article",
            IndexPageSignal::Index => "index",
            IndexPageSignal::Unknown => "unknown",
        }
    }
}

/// Minimum number of visible characters outside links below which a page
/// carries no extractable prose.
pub const BODY_PROSE_FLOOR_CHARS: usize = 400;

// ---------------------------------------------------------------------------
// Byte vocabulary
// ---------------------------------------------------------------------------

pub open spec fn script_word() -> Seq<u8> { seq![115u8, 99, 114, 105, 112, 116] }
pub open spec fn style_word() -> Seq<u8> { seq![115u8, 116, 121, 108, 101] }
pub open spec fn comment_open() -> Seq<u8> { seq![33u8, 45, 45] }
pub open spec fn comment_close() -> Seq<u8> { seq![45u8, 45, 62] }
pub open spec fn script_close() -> Seq<u8> { seq![60u8, 47, 115, 99, 114, 105, 112, 116, 62] }
pub open spec fn style_close() -> Seq<u8> { seq![60u8, 47, 115, 116, 121, 108, 101, 62] }
pub open spec fn scheme_sep() -> Seq<u8> { seq![58u8, 47, 47] }
pub open spec fn slash() -> Seq<u8> { seq![47u8] }
pub open spec fn text_html() -> Seq<u8> { seq![116u8, 101, 120, 116, 47, 104, 116, 109, 108] }
pub open spec fn application_xhtml() -> Seq<u8> {
    seq![97u8, 112, 112, 108, 105, 99, 97, 116, 105, 111, 110, 47, 120, 104, 116, 109, 108]
}

/// The generic listing tokens looked for in the URL path: `/topic/`,
/// `/topics/`, `/category/`, `/categories/`, `/tag/`, `/tags/`,
/// `/section/`, `/sections/`, `/archive/`, `/archives/`, `/index`,
/// `/all/`, `/all-`, `/listing/`, `/browse/`.
pub open spec fn index_path_token(k: int) -> Seq<u8> {
    if k == 0 { seq![47u8, 116, 111, 112, 105, 99, 47] }
    else if k == 1 { seq![47u8, 116, 111, 112, 105, 99, 115, 47] }
    else if k == 2 { seq![47u8, 99, 97, 116, 101, 103, 111, 114, 121, 47] }
    else if k == 3 { seq![47u8, 99, 97, 116, 101, 103, 111, 114, 105, 101, 115, 47] }
    else if k == 4 { seq![47u8, 116, 97, 103, 47] }
    else if k == 5 { seq![47u8, 116, 97, 103, 115, 47] }
    else if k == 6 { seq![47u8, 115, 101, 99, 116, 105, 111, 110, 47] }
    else if k == 7 { seq![47u8, 115, 101, 99, 116, 105, 111, 110, 115, 47] }
    else if k == 8 { seq![47u8, 97, 114, 99, 104, 105, 118, 101, 47] }
    else if k == 9 { seq![47u8, 97, 114, 99, 104, 105, 118, 101, 115, 47] }
    else if k == 10 { seq![47u8, 105, 110, 100, 101, 120] }
    else if k == 11 { seq![47u8, 97, 108, 108, 47] }
    else if k == 12 { seq![47u8, 97, 108, 108, 45] }
    else if k == 13 { seq![47u8, 108, 105, 115, 116, 105, 110, 103, 47] }
    else { seq![47u8, 98, 114, 111, 119, 115, 101, 47] }
}

/// Number of listing tokens.
pub const INDEX_PATH_TOKEN_COUNT: usize = 15;

fn index_path_token_vec(k: usize) -> (r: Vec<u8>)
    requires
        k < INDEX_PATH_TOKEN_COUNT,
    ensures
        r@ == index_path_token(k as int),
{
    let r = if k == 0 { vec![47u8, 116, 111, 112, 105, 99, 47] }
    else if k == 1 { vec![47u8, 116, 111, 112, 105, 99, 115, 47] }
    else if k == 2 { vec![47u8, 99, 97, 116, 101, 103, 111, 114, 121, 47] }
    else if k == 3 { vec![47u8, 99, 97, 116, 101, 103, 111, 114, 105, 101, 115, 47] }
    else if k == 4 { vec![47u8, 116, 97, 103, 47] }
    else if k == 5 { vec![47u8, 116, 97, 103, 115, 47] }
    else if k == 6 { vec![47u8, 115, 101, 99, 116, 105, 111, 110, 47] }
    else if k == 7 { vec![47u8, 115, 101, 99, 116, 105, 111, 110, 115, 47] }
    else if k == 8 { vec![47u8, 97, 114, 99, 104, 105, 118, 101, 47] }
    else if k == 9 { vec![47u8, 97, 114, 99, 104, 105, 118, 101, 115, 47] }
    else if k == 10 { vec![47u8, 105, 110, 100, 101, 120] }
    else if k == 11 { vec![47u8, 97, 108, 108, 47] }
    else if k == 12 { vec![47u8, 97, 108, 108, 45] }
    else if k == 13 { vec![47u8, 108, 105, 115, 116, 105, 110, 103, 47] }
    else { vec![47u8, 98, 114, 111, 119, 115, 101, 47] };
    assert(r@ =~= index_path_token(k as int));
    r
}

// ---------------------------------------------------------------------------
// Anchor-density scan: specification
// ---------------------------------------------------------------------------

/// Whitespace bytes that collapse into a single visible character.
pub open spec fn is_ws(c: u8) -> bool {
    c == 32 || c == 10 || c == 13 || c == 9
}

/// End of the whitespace run that starts at `j`.
pub open spec fn ws_end(b: Seq<u8>, j: int) -> int
    decreases b.len() - j,
{
    if 0 <= j < b.len() && is_ws(b[j]) {
        ws_end(b, j + 1)
    } else {
        j
    }
}

pub proof fn lemma_ws_end(b: Seq<u8>, j: int)
    requires
        0 <= j <= b.len(),
    ensures
        j <= ws_end(b, j) <= b.len(),
        j < b.len() && is_ws(b[j]) ==> j < ws_end(b, j),
    decreases b.len() - j,
{
    if j < b.len() && is_ws(b[j]) {
        lemma_ws_end(b, j + 1);
    }
}

/// Bytes that may follow `<a` for it to open an anchor: space, `>`, tab,
/// newline, `/`.
pub open spec fn anchor_follow(c: u8) -> bool {
    c == 32 || c == 62 || c == 9 || c == 10 || c == 47
}

/// Closing tag awaited inside a script (`1`) or style (`2`) block.
pub open spec fn raw_text_close(kind: u8) -> Seq<u8> {
    if kind == 1 { script_close() } else { style_close() }
}

/// The scan from position `i` on, given the scanner state: whether we are
/// inside an anchor, inside a tag, which raw-text block we are skipping
/// (`0` none, `1` script, `2` style), and the counts so far. Returns
/// `(anchor_text_chars, other_text_chars)`.
pub open spec fn scan_from(
    b: Seq<u8>,
    i: int,
    in_anchor: bool,
    in_tag: bool,
    raw: u8,
    a: nat,
    o: nat,
) -> (nat, nat)
    decreases b.len() - i,
{
    if i < 0 || i >= b.len() {
        (a, o)
    } else if raw != 0 {
        if ci_at(b, i, raw_text_close(raw)) {
            scan_from(b, i + raw_text_close(raw).len(), in_anchor, in_tag, 0, a, o)
        } else {
            scan_from(b, i + 1, in_anchor, in_tag, raw, a, o)
        }
    } else if in_tag {
        scan_from(b, i + 1, in_anchor, b[i] != 62, 0, a, o)
    } else if b[i] == 60 {
        if ci_at(b, i + 1, script_word()) {
            scan_from(b, i + 1, in_anchor, false, 1, a, o)
        } else if ci_at(b, i + 1, style_word()) {
            scan_from(b, i + 1, in_anchor, false, 2, a, o)
        } else if ci_at(b, i + 1, comment_open()) {
            match find_from(b, comment_close(), i + 4) {
                Some(r) => {
                    proof {
                        lemma_find_from(b, comment_close(), i + 4);
                    }
                    scan_from(b, r + 3, in_anchor, false, 0, a, o)
                },
                None => (a, o),
            }
        } else if !in_anchor && i + 1 < b.len() && lower_byte(b[i + 1]) == 97 && (i + 2 == b.len()
            || anchor_follow(b[i + 2])) {
            scan_from(b, i + 1, true, true, 0, a, o)
        } else if in_anchor && i + 3 <= b.len() && b[i + 1] == 47 && lower_byte(b[i + 2]) == 97 {
            scan_from(b, i + 1, false, true, 0, a, o)
        } else {
            scan_from(b, i + 1, in_anchor, true, 0, a, o)
        }
    } else if is_ws(b[i]) {
        proof {
            lemma_ws_end(b, i);
        }
        if in_anchor {
            scan_from(b, ws_end(b, i), in_anchor, false, 0, a + 1, o)
        } else {
            scan_from(b, ws_end(b, i), in_anchor, false, 0, a, o + 1)
        }
    } else if in_anchor {
        scan_from(b, i + 1, in_anchor, false, 0, a + 1, o)
    } else {
        scan_from(b, i + 1, in_anchor, false, 0, a, o + 1)
    }
}

/// `(anchor_text_chars, other_text_chars)` of an HTML byte string: visible
/// characters inside `<a ...>...</a>` versus outside, with tags, comments,
/// and script/style blocks skipped and whitespace runs counted as one.
pub open spec fn spec_scan_anchor_density(b: Seq<u8>) -> (nat, nat) {
    scan_from(b, 0, false, false, 0, 0, 0)
}

/// The counts never exceed the number of bytes scanned.
pub proof fn lemma_scan_bound(
    b: Seq<u8>,
    i: int,
    in_anchor: bool,
    in_tag: bool,
    raw: u8,
    a: nat,
    o: nat,
)
    requires
        0 <= i <= b.len(),
        a + o <= i,
    ensures
        scan_from(b, i, in_anchor, in_tag, raw, a, o).0 + scan_from(
            b,
            i,
            in_anchor,
            in_tag,
            raw,
            a,
            o,
        ).1 <= b.len(),
    decreases b.len() - i,
{
    if i >= b.len() {
    } else if raw != 0 {
        if ci_at(b, i, raw_text_close(raw)) {
            lemma_scan_bound(b, i + raw_text_close(raw).len(), in_anchor, in_tag, 0, a, o);
        } else {
            lemma_scan_bound(b, i + 1, in_anchor, in_tag, raw, a, o);
        }
    } else if in_tag {
        lemma_scan_bound(b, i + 1, in_anchor, b[i] != 62, 0, a, o);
    } else if b[i] == 60 {
        if ci_at(b, i + 1, script_word()) {
            lemma_scan_bound(b, i + 1, in_anchor, false, 1, a, o);
        } else if ci_at(b, i + 1, style_word()) {
            lemma_scan_bound(b, i + 1, in_anchor, false, 2, a, o);
        } else if ci_at(b, i + 1, comment_open()) {
            lemma_find_from(b, comment_close(), i + 4);
            match find_from(b, comment_close(), i + 4) {
                Some(r) => lemma_scan_bound(b, r + 3, in_anchor, false, 0, a, o),
                None => {},
            }
        } else if !in_anchor && i + 1 < b.len() && lower_byte(b[i + 1]) == 97 && (i + 2 == b.len()
            || anchor_follow(b[i + 2])) {
            lemma_scan_bound(b, i + 1, true, true, 0, a, o);
        } else if in_anchor && i + 3 <= b.len() && b[i + 1] == 47 && lower_byte(b[i + 2]) == 97 {
            lemma_scan_bound(b, i + 1, false, true, 0, a, o);
        } else {
            lemma_scan_bound(b, i + 1, in_anchor, true, 0, a, o);
        }
    } else if is_ws(b[i]) {
        lemma_ws_end(b, i);
        if in_anchor {
            lemma_scan_bound(b, ws_end(b, i), in_anchor, false, 0, a + 1, o);
        } else {
            lemma_scan_bound(b, ws_end(b, i), in_anchor, false, 0, a, o + 1);
        }
    } else if in_anchor {
        lemma_scan_bound(b, i + 1, in_anchor, false, 0, a + 1, o);
    } else {
        lemma_scan_bound(b, i + 1, in_anchor, false, 0, a, o + 1);
    }
}


// ---------------------------------------------------------------------------
// Anchor-density scan: implementation
// ---------------------------------------------------------------------------

fn seq_vec(which: u8) -> (r: Vec<u8>)
    ensures
        which == 0 ==> r@ == script_word(),
        which == 1 ==> r@ == style_word(),
        which == 2 ==> r@ == comment_open(),
        which == 3 ==> r@ == comment_close(),
        which == 4 ==> r@ == script_close(),
        which == 5 ==> r@ == style_close(),
        which == 6 ==> r@ == scheme_sep(),
        which == 7 ==> r@ == slash(),
        which == 8 ==> r@ == text_html(),
        which == 9 ==> r@ == application_xhtml(),
{
    let r = if which == 0 { vec![115u8, 99, 114, 105, 112, 116] }
    else if which == 1 { vec![115u8, 116, 121, 108, 101] }
    else if which == 2 { vec![33u8, 45, 45] }
    else if which == 3 { vec![45u8, 45, 62] }
    else if which == 4 { vec![60u8, 47, 115, 99, 114, 105, 112, 116, 62] }
    else if which == 5 { vec![60u8, 47, 115, 116, 121, 108, 101, 62] }
    else if which == 6 { vec![58u8, 47, 47] }
    else if which == 7 { vec![47u8] }
    else if which == 8 { vec![116u8, 101, 120, 116, 47, 104, 116, 109, 108] }
    else { vec![97u8, 112, 112, 108, 105, 99, 97, 116, 105, 111, 110, 47, 120, 104, 116, 109, 108] };
    proof {
        if which == 0 { assert(r@ =~= script_word()); }
        if which == 1 { assert(r@ =~= style_word()); }
        if which == 2 { assert(r@ =~= comment_open()); }
        if which == 3 { assert(r@ =~= comment_close()); }
        if which == 4 { assert(r@ =~= script_close()); }
        if which == 5 { assert(r@ =~= style_close()); }
        if which == 6 { assert(r@ =~= scheme_sep()); }
        if which == 7 { assert(r@ =~= slash()); }
        if which == 8 { assert(r@ =~= text_html()); }
        if which > 8 { assert(r@ =~= application_xhtml()); }
    }
    r
}

fn is_ws_byte(c: u8) -> (r: bool)
    ensures
        r == is_ws(c),
{
    c == 32 || c == 10 || c == 13 || c == 9
}

/// Count visible characters inside `<a>` blocks versus outside them.
/// Returns `(anchor_text_chars, other_text_chars)`.
pub fn scan_anchor_density(bytes: &[u8]) -> (r: (usize, usize))
    ensures
        (r.0 as nat, r.1 as nat) == spec_scan_anchor_density(bytes@),
        r.0 + r.1 <= bytes.len(),
{
    let script_w = seq_vec(0);
    let style_w = seq_vec(1);
    let comment_o = seq_vec(2);
    let comment_c = seq_vec(3);
    let script_c = seq_vec(4);
    let style_c = seq_vec(5);
    let ghost b = bytes@;
    let mut i: usize = 0;
    let mut in_anchor = false;
    let mut in_tag = false;
    let mut raw: u8 = 0;
    let mut anchor_chars: usize = 0;
    let mut other_chars: usize = 0;
    proof {
        lemma_scan_bound(b, 0, false, false, 0, 0, 0);
    }
    while i < bytes.len()
        invariant
            b == bytes@,
            script_w@ == script_word(),
            style_w@ == style_word(),
            comment_o@ == comment_open(),
            comment_c@ == comment_close(),
            script_c@ == script_close(),
            style_c@ == style_close(),
            i <= bytes.len(),
            anchor_chars + other_chars <= i,
            scan_from(b, i as int, in_anchor, in_tag, raw, anchor_chars as nat, other_chars as nat)
                == spec_scan_anchor_density(b),
        decreases bytes.len() - i,
    {
        let c = bytes[i];
        if raw != 0 {
            let close = if raw == 1 { &script_c } else { &style_c };
            if ci_match_at(bytes, i, close.as_slice()) {
                raw = 0;
                i = i + close.len();
                continue;
            }
            i += 1;
            continue;
        }
        if in_tag {
            if c == 62 {
                in_tag = false;
            }
            i += 1;
            continue;
        }
        if c == 60 {
            if ci_match_at(bytes, i + 1, script_w.as_slice()) {
                raw = 1;
                i += 1;
                continue;
            }
            if ci_match_at(bytes, i + 1, style_w.as_slice()) {
                raw = 2;
                i += 1;
                continue;
            }
            if ci_match_at(bytes, i + 1, comment_o.as_slice()) {
                proof {
                    lemma_find_from(b, comment_close(), i + 4);
                }
                match find_subseq_from(bytes, comment_c.as_slice(), i + 4) {
                    Some(end) => {
                        i = end + 3;
                        continue;
                    },
                    None => {
                        proof {
                            lemma_scan_bound(b, 0, false, false, 0, 0, 0);
                        }
                        return (anchor_chars, other_chars);
                    },
                }
            }
            if !in_anchor && i + 1 < bytes.len() && lower_u8(bytes[i + 1]) == 97 && (i + 2
                == bytes.len() || {
                let f = bytes[i + 2];
                f == 32 || f == 62 || f == 9 || f == 10 || f == 47
            }) {
                in_anchor = true;
                in_tag = true;
                i += 1;
                continue;
            }
            if in_anchor && bytes.len() - i >= 3 && bytes[i + 1] == 47 && lower_u8(bytes[i + 2])
                == 97 {
                in_anchor = false;
                in_tag = true;
                i += 1;
                continue;
            }
            in_tag = true;
            i += 1;
            continue;
        }
        if is_ws_byte(c) {
            let mut j = i;
            proof {
                lemma_ws_end(b, i as int);
            }
            while j < bytes.len() && is_ws_byte(bytes[j])
                invariant
                    b == bytes@,
                    i <= j <= bytes.len(),
                    ws_end(b, j as int) == ws_end(b, i as int),
                decreases bytes.len() - j,
            {
                j += 1;
            }
            if in_anchor {
                anchor_chars += 1;
            } else {
                other_chars += 1;
            }
            i = j;
            continue;
        }
        if in_anchor {
            anchor_chars += 1;
        } else {
            other_chars += 1;
        }
        i += 1;
    }
    proof {
        lemma_scan_bound(b, 0, false, false, 0, 0, 0);
    }
    (anchor_chars, other_chars)
}


// ---------------------------------------------------------------------------
// Classification
// ---------------------------------------------------------------------------

/// The MIME gate: empty, or starting (up to ASCII case) with `text/html`
/// or `application/xhtml`.
pub open spec fn mime_is_html(m: Seq<u8>) -> bool {
    m.len() == 0 || ci_at(m, 0, text_html()) || ci_at(m, 0, application_xhtml())
}

/// The path part of an (already lower-cased) URL: from the first `/`
/// after `://`, or `/` when none follows it; the whole string when there
/// is no `://`.
pub open spec fn url_path(u: Seq<u8>) -> Seq<u8> {
    match find_from(u, scheme_sep(), 0) {
        Some(i) => match find_from(u, slash(), i + 3) {
            Some(j) => u.subrange(j, u.len() as int),
            None => slash(),
        },
        None => u,
    }
}

/// `n` occurs somewhere in `h`.
pub open spec fn contains_bytes(h: Seq<u8>, n: Seq<u8>) -> bool {
    exists|j: int| occurs_at(h, j, n)
}

/// The URL's path (compared without ASCII case) carries a listing token.
pub open spec fn has_listing_token(url: Seq<u8>) -> bool {
    exists|k: int| 0 <= k < 15 && #[trigger] contains_bytes(url_path(lower_bytes(url)), index_path_token(k))
}

/// The detector's verdict on `bytes` fetched with MIME `mime` from `url`
/// (both given as their UTF-8 bytes). A body with at least
/// `BODY_PROSE_FLOOR_CHARS` of prose is an index when the URL carries a
/// listing token or when link text is at least half of all visible text.
pub open spec fn spec_classify(bytes: Seq<u8>, mime: Seq<u8>, url: Seq<u8>) -> IndexPageSignal {
    if !mime_is_html(mime) {
        IndexPageSignal::Unknown
    } else if !valid_utf8(bytes) {
        IndexPageSignal::Unknown
    } else {
        let token = has_listing_token(url);
        let a = spec_scan_anchor_density(bytes).0;
        let o = spec_scan_anchor_density(bytes).1;
        if o < 400 {
            if !token && a == 0 {
                IndexPageSignal::Unknown
            } else {
                IndexPageSignal::Index
            }
        } else if token || 2 * a >= a + o {
            IndexPageSignal::Index
        } else {
            IndexPageSignal::Article
        }
    }
}

fn lower_vec(s: &[u8]) -> (r: Vec<u8>)
    ensures
        r@ == lower_bytes(s@),
{
    let mut r: Vec<u8> = Vec::new();
    let mut k: usize = 0;
    while k < s.len()
        invariant
            k <= s.len(),
            r@ =~= lower_bytes(s@.subrange(0, k as int)),
        decreases s.len() - k,
    {
        r.push(lower_u8(s[k]));
        k += 1;
        assert(r@ =~= lower_bytes(s@.subrange(0, k as int)));
    }
    assert(s@.subrange(0, s@.len() as int) =~= s@);
    r
}

fn listing_token_in(url: &[u8]) -> (r: bool)
    ensures
        r == has_listing_token(url@),
{
    let lc = lower_vec(url);
    let sep = seq_vec(6);
    let sl = seq_vec(7);
    proof {
        lemma_find_from(lc@, scheme_sep(), 0);
    }
    let found = find_subseq_from(lc.as_slice(), sep.as_slice(), 0);
    let path: Vec<u8> = match found {
        Some(i) => {
            assert(occurs_at(lc@, i as int, scheme_sep()));
            assert(i + 3 <= lc.len());
            proof {
                lemma_find_from(lc@, slash(), i + 3);
            }
            let found2 = find_subseq_from(lc.as_slice(), sl.as_slice(), i + 3);
            match found2 {
                Some(j) => {
                    assert(occurs_at(lc@, j as int, slash()));
                    copy_range(lc.as_slice(), j, lc.len())
                },
                None => sl,
            }
        },
        None => lc,
    };
    assert(path@ == url_path(lower_bytes(url@)));
    let mut k: usize = 0;
    while k < INDEX_PATH_TOKEN_COUNT
        invariant
            path@ == url_path(lower_bytes(url@)),
            k <= INDEX_PATH_TOKEN_COUNT,
            forall|m: int| 0 <= m < k ==> !#[trigger] contains_bytes(path@, index_path_token(m)),
        decreases INDEX_PATH_TOKEN_COUNT - k,
    {
        let tok = index_path_token_vec(k);
        match find_subseq(path.as_slice(), tok.as_slice()) {
            Some(_) => {
                assert(contains_bytes(url_path(lower_bytes(url@)), index_path_token(k as int)));
                return true;
            },
            None => {
                assert(tok@.len() > 0);
            },
        }
        k += 1;
    }
    false
}

/// Classify fetched bytes as article, index or unknown. `mime` is the
/// response's Content-Type (empty when the server sent none), `source_url`
/// the fetched URL.
pub fn classify_fetched_bytes(bytes: &[u8], mime: &str, source_url: &str) -> (r: IndexPageSignal)
    ensures
        r == spec_classify(bytes@, mime.spec_bytes(), source_url.spec_bytes()),
        !mime_is_html(mime.spec_bytes()) ==> r == IndexPageSignal::Unknown,
        !valid_utf8(bytes@) ==> r == IndexPageSignal::Unknown,
        has_listing_token(source_url.spec_bytes()) && mime_is_html(mime.spec_bytes()) && valid_utf8(
            bytes@,
        ) ==> r == IndexPageSignal::Index,
{
    let m = mime.as_bytes();
    let html_a = seq_vec(8);
    let html_b = seq_vec(9);
    let mime_ok = m.len() == 0 || ci_match_at(m, 0, html_a.as_slice()) || ci_match_at(
        m,
        0,
        html_b.as_slice(),
    );
    if !mime_ok {
        return IndexPageSignal::Unknown;
    }
    if !is_valid_utf8(bytes) {
        return IndexPageSignal::Unknown;
    }
    let url_token_signal = listing_token_in(source_url.as_bytes());
    let (anchor_chars, body_chars_excluding_anchors) = scan_anchor_density(bytes);
    if body_chars_excluding_anchors < BODY_PROSE_FLOOR_CHARS {
        if !url_token_signal && anchor_chars == 0 {
            return IndexPageSignal::Unknown;
        }
        return IndexPageSignal::Index;
    }
    let total_body_chars = anchor_chars + body_chars_excluding_anchors;
    // Link text is at least half of all visible text.
    let density_signal = anchor_chars >= total_body_chars - anchor_chars;
    if url_token_signal || density_signal {
        IndexPageSignal::Index
    } else {
        IndexPageSignal::Article
    }
}

// ---------------------------------------------------------------------------
// Anchor-density scan: what a script block contributes
// ---------------------------------------------------------------------------

/// The bytes of `<script>`.
pub open spec fn script_open() -> Seq<u8> { seq![60u8, 115, 99, 114, 105, 112, 116, 62] }

/// From `i1` in `b1` and `i2` in `b2` on, the two byte strings are the same.
pub open spec fn same_tail(b1: Seq<u8>, i1: int, b2: Seq<u8>, i2: int) -> bool {
    &&& 0 <= i1 <= b1.len()
    &&& 0 <= i2 <= b2.len()
    &&& b1.subrange(i1, b1.len() as int) == b2.subrange(i2, b2.len() as int)
}

proof fn lemma_same_tail_at(b1: Seq<u8>, i1: int, b2: Seq<u8>, i2: int, k: int)
    requires
        same_tail(b1, i1, b2, i2),
        0 <= k < b1.len() - i1,
    ensures
        b1.len() - i1 == b2.len() - i2,
        b1[i1 + k] == b2[i2 + k],
{
    assert(b1.subrange(i1, b1.len() as int).len() == b2.subrange(i2, b2.len() as int).len());
    assert(b1.subrange(i1, b1.len() as int)[k] == b2.subrange(i2, b2.len() as int)[k]);
}

proof fn lemma_same_tail_len(b1: Seq<u8>, i1: int, b2: Seq<u8>, i2: int)
    requires
        same_tail(b1, i1, b2, i2),
    ensures
        b1.len() - i1 == b2.len() - i2,
{
    assert(b1.subrange(i1, b1.len() as int).len() == b2.subrange(i2, b2.len() as int).len());
}

proof fn lemma_same_tail_shift(b1: Seq<u8>, i1: int, b2: Seq<u8>, i2: int, d: int)
    requires
        same_tail(b1, i1, b2, i2),
        0 <= d <= b1.len() - i1,
    ensures
        same_tail(b1, i1 + d, b2, i2 + d),
{
    assert(b1.subrange(i1 + d, b1.len() as int) =~= b1.subrange(i1, b1.len() as int).subrange(d, b1.len() - i1));
    assert(b1.subrange(i1, b1.len() as int).len() == b2.subrange(i2, b2.len() as int).len());
    assert(b2.subrange(i2 + d, b2.len() as int) =~= b2.subrange(i2, b2.len() as int).subrange(d, b1.len() - i1));
}

proof fn lemma_same_tail_ci(b1: Seq<u8>, i1: int, b2: Seq<u8>, i2: int, k: int, w: Seq<u8>)
    requires
        same_tail(b1, i1, b2, i2),
        0 <= k,
    ensures
        ci_at(b1, i1 + k, w) == ci_at(b2, i2 + k, w),
{
    lemma_same_tail_len(b1, i1, b2, i2);
    if i1 + k + w.len() <= b1.len() {
        let t1 = b1.subrange(i1, b1.len() as int);
        let t2 = b2.subrange(i2, b2.len() as int);
        assert(b1.subrange(i1 + k, i1 + k + w.len()) =~= t1.subrange(k, k + w.len()));
        assert(b2.subrange(i2 + k, i2 + k + w.len()) =~= t2.subrange(k, k + w.len()));
    }
}

proof fn lemma_same_tail_ws(b1: Seq<u8>, i1: int, b2: Seq<u8>, i2: int)
    requires
        same_tail(b1, i1, b2, i2),
    ensures
        ws_end(b1, i1) - i1 == ws_end(b2, i2) - i2,
    decreases b1.len() - i1,
{
    lemma_same_tail_len(b1, i1, b2, i2);
    if i1 < b1.len() {
        lemma_same_tail_at(b1, i1, b2, i2, 0);
        if is_ws(b1[i1]) {
            lemma_same_tail_shift(b1, i1, b2, i2, 1);
            lemma_same_tail_ws(b1, i1 + 1, b2, i2 + 1);
        }
    }
}

proof fn lemma_same_tail_find(b1: Seq<u8>, i1: int, b2: Seq<u8>, i2: int, pat: Seq<u8>)
    requires
        same_tail(b1, i1, b2, i2),
    ensures
        match find_from(b2, pat, i2) {
            Some(r) => find_from(b1, pat, i1) == Some(r + i1 - i2),
            None => find_from(b1, pat, i1) is None,
        },
    decreases b1.len() + 1 - i1,
{
    lemma_same_tail_len(b1, i1, b2, i2);
    if i1 + pat.len() <= b1.len() {
        let t1 = b1.subrange(i1, b1.len() as int);
        let t2 = b2.subrange(i2, b2.len() as int);
        assert(b1.subrange(i1, i1 + pat.len()) =~= t1.subrange(0, pat.len() as int));
        assert(b2.subrange(i2, i2 + pat.len()) =~= t2.subrange(0, pat.len() as int));
        assert(b1.subrange(i1, i1 + pat.len()) =~= b2.subrange(i2, i2 + pat.len()));
        if pat.len() == 0 {
            assert(b1.subrange(i1, i1 + pat.len()) =~= pat);
        }
        if b1.subrange(i1, i1 + pat.len()) != pat {
            lemma_same_tail_shift(b1, i1, b2, i2, 1);
            lemma_same_tail_find(b1, i1 + 1, b2, i2 + 1, pat);
        }
    }
}

proof fn lemma_scan_same_tail(
    b1: Seq<u8>,
    i1: int,
    b2: Seq<u8>,
    i2: int,
    in_anchor: bool,
    in_tag: bool,
    raw: u8,
    a: nat,
    o: nat,
)
    requires
        same_tail(b1, i1, b2, i2),
    ensures
        scan_from(b1, i1, in_anchor, in_tag, raw, a, o) == scan_from(b2, i2, in_anchor, in_tag, raw, a, o),
    decreases b1.len() - i1,
{
    lemma_same_tail_len(b1, i1, b2, i2);
    if i1 >= b1.len() {
        return;
    }
    lemma_same_tail_at(b1, i1, b2, i2, 0);
    if i1 + 1 < b1.len() {
        lemma_same_tail_at(b1, i1, b2, i2, 1);
    }
    if i1 + 2 < b1.len() {
        lemma_same_tail_at(b1, i1, b2, i2, 2);
    }
    lemma_same_tail_ci(b1, i1, b2, i2, 0, raw_text_close(raw));
    lemma_same_tail_ci(b1, i1, b2, i2, 1, script_word());
    lemma_same_tail_ci(b1, i1, b2, i2, 1, style_word());
    lemma_same_tail_ci(b1, i1, b2, i2, 1, comment_open());
    if raw != 0 {
        if ci_at(b1, i1, raw_text_close(raw)) {
            let d = raw_text_close(raw).len() as int;
            lemma_same_tail_shift(b1, i1, b2, i2, d);
            lemma_scan_same_tail(b1, i1 + d, b2, i2 + d, in_anchor, in_tag, 0, a, o);
        } else {
            lemma_same_tail_shift(b1, i1, b2, i2, 1);
            lemma_scan_same_tail(b1, i1 + 1, b2, i2 + 1, in_anchor, in_tag, raw, a, o);
        }
    } else if in_tag {
        lemma_same_tail_shift(b1, i1, b2, i2, 1);
        lemma_scan_same_tail(b1, i1 + 1, b2, i2 + 1, in_anchor, b1[i1] != 62, 0, a, o);
    } else if b1[i1] == 60 {
        lemma_same_tail_shift(b1, i1, b2, i2, 1);
        if ci_at(b1, i1 + 1, script_word()) {
            lemma_scan_same_tail(b1, i1 + 1, b2, i2 + 1, in_anchor, false, 1, a, o);
        } else if ci_at(b1, i1 + 1, style_word()) {
            lemma_scan_same_tail(b1, i1 + 1, b2, i2 + 1, in_anchor, false, 2, a, o);
        } else if ci_at(b1, i1 + 1, comment_open()) {
            lemma_same_tail_shift(b1, i1, b2, i2, 4);
            lemma_same_tail_find(b1, i1 + 4, b2, i2 + 4, comment_close());
            lemma_find_from(b1, comment_close(), i1 + 4);
            match find_from(b1, comment_close(), i1 + 4) {
                Some(r) => {
                    lemma_same_tail_shift(b1, i1, b2, i2, r + 3 - i1);
                    lemma_scan_same_tail(b1, r + 3, b2, r + 3 - i1 + i2, in_anchor, false, 0, a, o);
                },
                None => {},
            }
        } else if !in_anchor && i1 + 1 < b1.len() && lower_byte(b1[i1 + 1]) == 97 && (i1 + 2 == b1.len()
            || anchor_follow(b1[i1 + 2])) {
            lemma_scan_same_tail(b1, i1 + 1, b2, i2 + 1, true, true, 0, a, o);
        } else if in_anchor && i1 + 3 <= b1.len() && b1[i1 + 1] == 47 && lower_byte(b1[i1 + 2]) == 97 {
            lemma_scan_same_tail(b1, i1 + 1, b2, i2 + 1, false, true, 0, a, o);
        } else {
            lemma_scan_same_tail(b1, i1 + 1, b2, i2 + 1, in_anchor, true, 0, a, o);
        }
    } else if is_ws(b1[i1]) {
        lemma_ws_end(b1, i1);
        lemma_same_tail_ws(b1, i1, b2, i2);
        let d = ws_end(b1, i1) - i1;
        lemma_same_tail_shift(b1, i1, b2, i2, d);
        if in_anchor {
            lemma_scan_same_tail(b1, i1 + d, b2, i2 + d, in_anchor, false, 0, a + 1, o);
        } else {
            lemma_scan_same_tail(b1, i1 + d, b2, i2 + d, in_anchor, false, 0, a, o + 1);
        }
    } else {
        lemma_same_tail_shift(b1, i1, b2, i2, 1);
        if in_anchor {
            lemma_scan_same_tail(b1, i1 + 1, b2, i2 + 1, in_anchor, false, 0, a + 1, o);
        } else {
            lemma_scan_same_tail(b1, i1 + 1, b2, i2 + 1, in_anchor, false, 0, a, o + 1);
        }
    }
}

proof fn lemma_ws_end_in_prefix(p: Seq<u8>, b: Seq<u8>, j: int)
    requires
        p.len() <= b.len(),
        b.subrange(0, p.len() as int) == p,
        0 <= j < p.len(),
        !is_ws(p.last()),
    ensures
        ws_end(b, j) == ws_end(p, j),
        ws_end(b, j) < p.len(),
    decreases p.len() - j,
{
    assert(b.subrange(0, p.len() as int)[j] == b[j]);
    if is_ws(b[j]) {
        lemma_ws_end_in_prefix(p, b, j + 1);
    }
}

proof fn lemma_scan_prefix(p: Seq<u8>, b1: Seq<u8>, b2: Seq<u8>, j: int, a: nat, o: nat)
    requires
        p.len() <= b1.len(),
        p.len() <= b2.len(),
        b1.subrange(0, p.len() as int) == p,
        b2.subrange(0, p.len() as int) == p,
        forall|k: int| 0 <= k < p.len() ==> p[k] != 60,
        p.len() == 0 || !is_ws(p.last()),
        0 <= j <= p.len(),
    ensures
        exists|a2: nat, o2: nat|
            scan_from(b1, j, false, false, 0, a, o) == #[trigger] scan_from(b1, p.len() as int, false, false, 0, a2, o2)
                && scan_from(b2, j, false, false, 0, a, o) == scan_from(b2, p.len() as int, false, false, 0, a2, o2),
    decreases p.len() - j,
{
    if j == p.len() {
        assert(scan_from(b1, j, false, false, 0, a, o) == scan_from(b1, p.len() as int, false, false, 0, a, o));
    } else {
        assert(b1.subrange(0, p.len() as int)[j] == b1[j]);
        assert(b2.subrange(0, p.len() as int)[j] == b2[j]);
        assert(p[j] != 60);
        if is_ws(p[j]) {
            lemma_ws_end_in_prefix(p, b1, j);
            lemma_ws_end_in_prefix(p, b2, j);
            lemma_ws_end(b1, j);
            lemma_scan_prefix(p, b1, b2, ws_end(p, j), a, o + 1);
        } else {
            lemma_scan_prefix(p, b1, b2, j + 1, a, o + 1);
        }
    }
}

proof fn lemma_scan_skip_script(b: Seq<u8>, i: int, e: int, a: nat, o: nat)
    requires
        0 <= i <= e,
        ci_at(b, e, script_close()),
        forall|k: int| i <= k < e ==> !ci_at(b, k, script_close()),
    ensures
        scan_from(b, i, false, false, 1, a, o) == scan_from(b, e + 9, false, false, 0, a, o),
    decreases e - i,
{
    if i < e {
        lemma_scan_skip_script(b, i + 1, e, a, o);
    }
}

/// Law: a script block adds to neither count: where the text before it holds
/// no `<` and does not end in whitespace, and the block's body holds no
/// `</script>` in any case, the counts of `p`, the block and `q` are
/// those of `p` and `q` alone.
pub proof fn law_script_block_adds_nothing(p: Seq<u8>, s: Seq<u8>, q: Seq<u8>)
    requires
        forall|k: int| 0 <= k < p.len() ==> p[k] != 60,
        p.len() == 0 || !is_ws(p.last()),
        forall|k: int| !ci_at(s, k, script_close()),
    ensures
        spec_scan_anchor_density(p + script_open() + s + script_close() + q) == spec_scan_anchor_density(p + q),
{
    let b1 = p + script_open() + s + script_close() + q;
    let b2 = p + q;
    let n = p.len() as int;
    let e = n + 8 + s.len();
    assert(b1.subrange(0, n) =~= p);
    assert(b2.subrange(0, n) =~= p);
    lemma_scan_prefix(p, b1, b2, 0, 0, 0);
    let (a2, o2) = choose|a2: nat, o2: nat|
        scan_from(b1, 0, false, false, 0, 0, 0) == #[trigger] scan_from(b1, n, false, false, 0, a2, o2)
            && scan_from(b2, 0, false, false, 0, 0, 0) == scan_from(b2, n, false, false, 0, a2, o2);
    // At `n`, `<script` opens a script block.
    assert(b1[n] == 60);
    assert(b1.subrange(n + 1, n + 7) =~= script_word());
    assert(ci_at(b1, n + 1, script_word()));
    assert(scan_from(b1, n, false, false, 0, a2, o2) == scan_from(b1, n + 1, false, false, 1, a2, o2));
    // The block closes first at `e`.
    assert(b1.subrange(e, e + 9) =~= script_close());
    assert(ci_at(b1, e, script_close()));
    assert forall|k: int| n + 1 <= k < e implies !ci_at(b1, k, script_close()) by {
        if ci_at(b1, k, script_close()) {
            let w = script_close();
            assert(lower_byte(b1.subrange(k, k + 9)[0]) == lower_byte(w[0]));
            assert(b1[k] == 60);
            if k < n + 8 {
                assert(b1[k] == script_open()[k - n]);
            } else if k + 9 <= e {
                assert(b1.subrange(k, k + 9) =~= s.subrange(k - n - 8, k - n - 8 + 9));
                assert(ci_at(s, k - n - 8, w));
            } else {
                let t = e - k;
                assert(b1[e] == 60);
                assert(lower_byte(b1.subrange(k, k + 9)[t]) == lower_byte(w[t]));
                assert(b1.subrange(k, k + 9)[t] == b1[e]);
            }
        }
    }
    lemma_scan_skip_script(b1, n + 1, e, a2, o2);
    // After the block, both strings go on with `q`.
    assert(b1.subrange(e + 9, b1.len() as int) =~= q);
    assert(b2.subrange(n, b2.len() as int) =~= q);
    lemma_scan_same_tail(b1, e + 9, b2, n, false, false, 0, a2, o2);
}

/// The bytes of `<style>`.
pub open spec fn style_open() -> Seq<u8> { seq![60u8, 115, 116, 121, 108, 101, 62] }

proof fn lemma_scan_skip_style(b: Seq<u8>, i: int, e: int, a: nat, o: nat)
    requires
        0 <= i <= e,
        ci_at(b, e, style_close()),
        forall|k: int| i <= k < e ==> !ci_at(b, k, style_close()),
    ensures
        scan_from(b, i, false, false, 2, a, o) == scan_from(b, e + 8, false, false, 0, a, o),
    decreases e - i,
{
    if i < e {
        lemma_scan_skip_style(b, i + 1, e, a, o);
    }
}

/// Law: a style block adds to neither count: where the text before it
/// holds no `<` and does not end in whitespace, and the block's body holds
/// no `</style>` in any case, the counts of `p`, the block and `q` are
/// those of `p` and `q` alone.
pub proof fn law_style_block_adds_nothing(p: Seq<u8>, s: Seq<u8>, q: Seq<u8>)
    requires
        forall|k: int| 0 <= k < p.len() ==> p[k] != 60,
        p.len() == 0 || !is_ws(p.last()),
        forall|k: int| !ci_at(s, k, style_close()),
    ensures
        spec_scan_anchor_density(p + style_open() + s + style_close() + q) == spec_scan_anchor_density(p + q),
{
    let b1 = p + style_open() + s + style_close() + q;
    let b2 = p + q;
    let n = p.len() as int;
    let e = n + 7 + s.len();
    assert(b1.subrange(0, n) =~= p);
    assert(b2.subrange(0, n) =~= p);
    lemma_scan_prefix(p, b1, b2, 0, 0, 0);
    let (a2, o2) = choose|a2: nat, o2: nat|
        scan_from(b1, 0, false, false, 0, 0, 0) == #[trigger] scan_from(b1, n, false, false, 0, a2, o2)
            && scan_from(b2, 0, false, false, 0, 0, 0) == scan_from(b2, n, false, false, 0, a2, o2);
    // At `n`, `<style` opens a style block (and no script block).
    assert(b1[n] == 60);
    assert(b1[n + 2] == 116);
    assert(lower_byte(b1.subrange(n + 1, n + 7)[1]) != lower_byte(script_word()[1]));
    assert(!ci_at(b1, n + 1, script_word()));
    assert(b1.subrange(n + 1, n + 6) =~= style_word());
    assert(ci_at(b1, n + 1, style_word()));
    assert(scan_from(b1, n, false, false, 0, a2, o2) == scan_from(b1, n + 1, false, false, 2, a2, o2));
    // The block closes first at `e`.
    assert(b1.subrange(e, e + 8) =~= style_close());
    assert(ci_at(b1, e, style_close()));
    assert forall|k: int| n + 1 <= k < e implies !ci_at(b1, k, style_close()) by {
        if ci_at(b1, k, style_close()) {
            let w = style_close();
            assert(lower_byte(b1.subrange(k, k + 8)[0]) == lower_byte(w[0]));
            assert(b1[k] == 60);
            if k < n + 7 {
                assert(b1[k] == style_open()[k - n]);
            } else if k + 8 <= e {
                assert(b1.subrange(k, k + 8) =~= s.subrange(k - n - 7, k - n - 7 + 8));
                assert(ci_at(s, k - n - 7, w));
            } else {
                let t = e - k;
                assert(b1[e] == 60);
                assert(lower_byte(b1.subrange(k, k + 8)[t]) == lower_byte(w[t]));
                assert(b1.subrange(k, k + 8)[t] == b1[e]);
            }
        }
    }
    lemma_scan_skip_style(b1, n + 1, e, a2, o2);
    // After the block, both strings go on with `q`.
    assert(b1.subrange(e + 8, b1.len() as int) =~= q);
    assert(b2.subrange(n, b2.len() as int) =~= q);
    lemma_scan_same_tail(b1, e + 8, b2, n, false, false, 0, a2, o2);
}

} // verus!
