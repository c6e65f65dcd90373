//! Papers, their authors, and the file names their documents are stored under.
use vstd::prelude::*;

use crate::datetime::Timestamp;
use crate::text::{chars_of, spec_is_whitespace, is_whitespace, string_of};

verus! {

/// Author information for academic papers.
#[derive(Debug)]
pub struct Author {
    /// Author's full name
    pub name: String,
    /// Optional institutional affiliation
    pub affiliation: Option<String>,
    /// Optional contact email
    pub email: Option<String>,
}

/// Complete representation of an academic paper with metadata.
#[derive(Debug)]
pub struct Paper {
    /// The paper's full title
    pub title: String,
    /// Complete list of paper authors with affiliations
    pub authors: Vec<Author>,
    /// Full abstract or summary text
    pub abstract_text: String,
    /// Publication or last update timestamp
    pub publication_date: Timestamp,
    /// Source repository or system (arXiv, DOI, IACR, etc.)
    pub source: String,
    /// Source-specific paper identifier
    pub source_identifier: String,
    /// Optional URL to PDF document
    pub pdf_url: Option<String>,
    /// Optional DOI reference
    pub doi: Option<String>,
}

/// Characters kept in a file name made from a title.
pub open spec fn spec_title_keeps(c: char) -> bool {
    ('a' <= c && c <= 'z') || ('A' <= c && c <= 'Z') || ('0' <= c && c <= '9') || c == '-'
}

/// Reads a title left to right: kept characters are copied, a run of
/// whitespace between kept characters becomes one `_`, other characters are
/// dropped. Gives the text so far and whether a word break is pending.
pub open spec fn spec_title_scan(s: Seq<char>) -> (Seq<char>, bool)
    decreases s.len(),
{
    if s.len() == 0 {
        (Seq::<char>::empty(), false)
    } else {
        let prev = spec_title_scan(s.drop_last());
        let c = s.last();
        if spec_title_keeps(c) {
            let base = if prev.1 && prev.0.len() > 0 {
                prev.0.push('_')
            } else {
                prev.0
            };
            (base.push(c), false)
        } else if spec_is_whitespace(c) {
            (prev.0, true)
        } else {
            prev
        }
    }
}

/// `s` without trailing underscores.
pub open spec fn spec_strip_underscores(s: Seq<char>) -> Seq<char>
    decreases s.len(),
{
    if s.len() > 0 && s.last() == '_' {
        spec_strip_underscores(s.drop_last())
    } else {
        s
    }
}

/// The file-system-safe form of a title: the scanned text cut to at most
/// `max_length` characters (50 when none is given), without a trailing `_`.
pub open spec fn spec_format_title(title: Seq<char>, max_length: Option<usize>) -> Seq<char> {
    let full = spec_title_scan(title).0;
    let max: int = match max_length {
        Some(m) => m as int,
        None => 50,
    };
    let cut = if full.len() > max {
        full.take(max)
    } else {
        full
    };
    spec_strip_underscores(cut)
}

fn title_keeps(c: char) -> (r: bool)
    ensures
        r == spec_title_keeps(c),
{
    ('a' <= c && c <= 'z') || ('A' <= c && c <= 'Z') || ('0' <= c && c <= '9') || c == '-'
}

/// Formats a title for use as a file name: words of letters, digits and `-`
/// joined by `_`, at most `max_length` characters long (50 by default).
pub fn format_title(title: &str, max_length: Option<usize>) -> (r: String)
    ensures
        r@ == spec_format_title(title@, max_length),
{
    let x = chars_of(title);
    let mut out: Vec<char> = Vec::new();
    let mut pending = false;
    let mut i: usize = 0;
    assert(x@.take(0) =~= Seq::<char>::empty());
    while i < x.len()
        invariant
            i <= x.len(),
            (out@, pending) == spec_title_scan(x@.take(i as int)),
        decreases x.len() - i,
    {
        let c = x[i];
        assert(x@.take(i + 1).drop_last() =~= x@.take(i as int));
        assert(x@.take(i + 1).last() == c);
        if title_keeps(c) {
            if pending && out.len() > 0 {
                out.push('_');
            }
            out.push(c);
            pending = false;
        } else if is_whitespace(c) {
            pending = true;
        }
        i = i + 1;
    }
    assert(x@.take(x@.len() as int) =~= x@);
    let max: usize = match max_length {
        Some(m) => m,
        None => 50,
    };
    let mut end: usize = if out.len() > max {
        max
    } else {
        out.len()
    };
    let ghost cut = if out@.len() > max {
        out@.take(max as int)
    } else {
        out@
    };
    assert(out@.take(end as int) =~= cut);
    while end > 0 && out[end - 1] == '_'
        invariant
            end <= out@.len(),
            spec_strip_underscores(out@.take(end as int)) == spec_strip_underscores(cut),
        decreases end,
    {
        assert(out@.take(end as int).drop_last() =~= out@.take(end - 1));
        end = end - 1;
    }
    let mut res: Vec<char> = Vec::new();
    let mut k: usize = 0;
    while k < end
        invariant
            k <= end <= out@.len(),
            res@ == out@.take(k as int),
        decreases end - k,
    {
        res.push(out[k]);
        k = k + 1;
        assert(res@ =~= out@.take(k as int));
    }
    string_of(&res)
}

impl Paper {
    /// The URL to download the paper's PDF from, if the paper has one.
    pub fn pdf_source(&self) -> (r: Result<String, crate::error::LearnerError>)
        ensures
            self.pdf_url is None <==> r is Err,
            r matches Ok(u) ==> u@ == self.pdf_url->Some_0@,
            r matches Err(e) ==> e is ApiError && e->ApiError_0@ == "No PDF URL available"@,
    {
        match &self.pdf_url {
            Some(u) => Ok(u.clone()),
            None => Err(crate::error::LearnerError::ApiError(crate::text::owned("No PDF URL available"))),
        }
    }

    /// The file name the paper's PDF is stored under: the formatted title
    /// (at most 50 characters) followed by `.pdf`.
    pub fn filename(&self) -> (r: String)
        ensures
            r@ == spec_format_title(self.title@, Some(50usize)) + ".pdf"@,
    {
        let t = format_title(self.title.as_str(), Some(50));
        crate::text::concat(t.as_str(), ".pdf")
    }
}

/// The characters of a file name: ASCII letters and digits, `-` and `_`.
pub open spec fn spec_file_safe(c: char) -> bool {
    spec_title_keeps(c) || c == '_'
}

proof fn lemma_scan_safe(s: Seq<char>)
    ensures
        forall|i: int|
            0 <= i < spec_title_scan(s).0.len() ==> spec_file_safe(#[trigger] spec_title_scan(s).0[i]),
        spec_title_scan(s).0.len() > 0 ==> spec_title_keeps(spec_title_scan(s).0[0])
            && spec_title_keeps(spec_title_scan(s).0.last()),
    decreases s.len(),
{
    if s.len() > 0 {
        lemma_scan_safe(s.drop_last());
    }
}

proof fn lemma_strip_underscores(s: Seq<char>)
    ensures
        spec_strip_underscores(s).len() <= s.len(),
        forall|i: int| 0 <= i < spec_strip_underscores(s).len() ==> #[trigger] spec_strip_underscores(s)[i] == s[i],
        spec_strip_underscores(s).len() > 0 ==> spec_strip_underscores(s).last() != '_',
    decreases s.len(),
{
    if s.len() > 0 && s.last() == '_' {
        lemma_strip_underscores(s.drop_last());
    }
}

/// A formatted title is a safe file name: it holds only ASCII letters and
/// digits, `-` and `_`, neither begins nor ends with `_`, and is at most
/// `max_length` characters long (50 when none is given).
pub proof fn lemma_format_title_safe(title: Seq<char>, max_length: Option<usize>)
    ensures
        forall|i: int|
            0 <= i < spec_format_title(title, max_length).len() ==> spec_file_safe(
                #[trigger] spec_format_title(title, max_length)[i],
            ),
        spec_format_title(title, max_length).len() > 0 ==> spec_format_title(title, max_length)[0] != '_'
            && spec_format_title(title, max_length).last() != '_',
        spec_format_title(title, max_length).len() <= match max_length {
            Some(m) => m as int,
            None => 50,
        },
{
    let full = spec_title_scan(title).0;
    let max: int = match max_length {
        Some(m) => m as int,
        None => 50,
    };
    let cut = if full.len() > max {
        full.take(max)
    } else {
        full
    };
    lemma_scan_safe(title);
    lemma_strip_underscores(cut);
    let r = spec_strip_underscores(cut);
    assert(r == spec_format_title(title, max_length));
    assert forall|i: int| 0 <= i < r.len() implies spec_file_safe(#[trigger] r[i]) by {
        assert(r[i] == cut[i]);
        assert(cut[i] == full[i]);
    }
    if r.len() > 0 {
        assert(r[0] == cut[0]);
        assert(cut[0] == full[0]);
    }
}

} // verus!
