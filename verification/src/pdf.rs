//! Content extracted from PDF documents: metadata and the text of each page.
use vstd::prelude::*;

use crate::pattern::{regex_group1_all, spec_regex_group1_all};
use crate::text::{owned, string_of, chars_of};

verus! {

/// Structured content extracted from a PDF document.
#[derive(Debug)]
pub struct PDFContent {
    /// Path to the source PDF file
    pub path: String,
    /// Document metadata including title, author, etc.
    pub metadata: PDFMetadata,
    /// Ordered collection of page contents
    pub pages: Vec<PageContent>,
}

/// Builder for configuring and creating PDFContent instances.
#[derive(Debug)]
pub struct PDFContentBuilder {
    path: Option<String>,
}

/// Metadata extracted from a PDF document.
#[derive(Debug)]
pub struct PDFMetadata {
    /// Document title
    pub title: Option<String>,
    /// Document author(s)
    pub author: Option<String>,
    /// Document subject or description
    pub subject: Option<String>,
    /// Keywords associated with the document
    pub keywords: Option<String>,
}

/// Content extracted from a single PDF page.
#[derive(Debug)]
pub struct PageContent {
    /// 1-based page number in the document
    pub page_number: u32,
    /// Extracted text content from the page
    pub text: String,
}

/// What `String::from_utf8_lossy` makes of the bytes.
pub uninterp spec fn spec_utf8_lossy(bytes: Seq<u8>) -> Seq<char>;

/// Calls `String::from_utf8_lossy`. The contract names the text.
#[verifier::external_body]
fn utf8_lossy(bytes: &[u8]) -> (r: String)
    ensures
        r@ == spec_utf8_lossy(bytes@),
{
    String::from_utf8_lossy(bytes).into_owned()
}

/// A Unicode scalar value: a code point that is not a surrogate.
pub open spec fn spec_is_scalar(code: int) -> bool {
    0 <= code <= 0x10FFFF && !(0xD800 <= code <= 0xDFFF)
}

/// Calls `char::from_u32`, which gives the character with the code when the
/// code is a Unicode scalar value, and `None` otherwise.
#[verifier::external_body]
fn char_of(code: u32) -> (r: Option<char>)
    ensures
        r is Some <==> spec_is_scalar(code as int),
        r matches Some(c) ==> c == code as char,
{
    char::from_u32(code)
}

/// The UTF-16 code units of big-endian byte pairs (a trailing odd byte
/// makes no unit).
pub open spec fn spec_be_units(b: Seq<u8>) -> Seq<int> {
    Seq::new(b.len() / 2, |i: int| b[2 * i] as int * 256 + b[2 * i + 1] as int)
}

/// UTF-16 decoding (as `char::decode_utf16` does), each unpaired surrogate
/// becoming U+FFFD.
pub open spec fn spec_decode_units(u: Seq<int>) -> Seq<char>
    decreases u.len(),
{
    if u.len() == 0 {
        seq![]
    } else if u[0] < 0xD800 || u[0] > 0xDFFF {
        seq![u[0] as char] + spec_decode_units(u.drop_first())
    } else if u[0] <= 0xDBFF && u.len() >= 2 && 0xDC00 <= u[1] <= 0xDFFF {
        seq![(0x10000 + (u[0] - 0xD800) * 0x400 + (u[1] - 0xDC00)) as char] + spec_decode_units(u.skip(2))
    } else {
        seq!['\u{FFFD}'] + spec_decode_units(u.drop_first())
    }
}

/// Lossy UTF-16 big-endian decoding (what `String::from_utf16be_lossy`
/// does): the code units decoded, and U+FFFD for a trailing odd byte.
pub open spec fn spec_utf16be_lossy(b: Seq<u8>) -> Seq<char> {
    spec_decode_units(spec_be_units(b)) + if b.len() % 2 == 1 {
        seq!['\u{FFFD}']
    } else {
        seq![]
    }
}

/// Decodes UTF-16 big-endian bytes, replacing invalid units (and a trailing
/// odd byte) by U+FFFD.
fn utf16be_lossy(b: &Vec<u8>) -> (r: String)
    ensures
        r@ == spec_utf16be_lossy(b@),
{
    let n = b.len() / 2;
    let ghost u = spec_be_units(b@);
    let mut units: Vec<u32> = Vec::new();
    let mut k: usize = 0;
    while k < n
        invariant
            n == b.len() / 2,
            k <= n,
            u == spec_be_units(b@),
            units@.len() == k,
            forall|j: int| 0 <= j < k ==> #[trigger] units@[j] as int == u[j],
        decreases n - k,
    {
        let hi = b[2 * k] as u32;
        let lo = b[2 * k + 1] as u32;
        units.push(hi * 256 + lo);
        k = k + 1;
    }
    let mut out: Vec<char> = Vec::new();
    let mut i: usize = 0;
    assert(u.skip(0) =~= u);
    while i < n
        invariant
            n == b.len() / 2,
            i <= n,
            u == spec_be_units(b@),
            u.len() == n,
            units@.len() == n,
            forall|j: int| 0 <= j < n ==> #[trigger] units@[j] as int == u[j],
            out@ + spec_decode_units(u.skip(i as int)) == spec_decode_units(u),
        decreases n - i,
    {
        let ghost rest = u.skip(i as int);
        assert(rest[0] == u[i as int]);
        let w = units[i];
        if w < 0xD800 || w > 0xDFFF {
            let c = char_of(w);
            proof {
                assert(w <= 0xFFFF) by {
                    assert(u[i as int] == b@[2 * i] as int * 256 + b@[2 * i + 1] as int);
                }
            }
            let c = c.unwrap();
            let ghost before = out@;
            out.push(c);
            assert(rest.drop_first() =~= u.skip(i + 1));
            assert(out@ + spec_decode_units(u.skip(i + 1)) =~= before + spec_decode_units(rest));
            i = i + 1;
        } else if w <= 0xDBFF && i + 1 < n && 0xDC00 <= units[i + 1] && units[i + 1] <= 0xDFFF {
            let v = units[i + 1];
            assert(rest[1] == u[i + 1]);
            let code = 0x10000 + (w - 0xD800) * 0x400 + (v - 0xDC00);
            let c = char_of(code).unwrap();
            let ghost before = out@;
            out.push(c);
            assert(rest.skip(2) =~= u.skip(i + 2));
            assert(out@ + spec_decode_units(u.skip(i + 2)) =~= before + spec_decode_units(rest));
            i = i + 2;
        } else {
            let ghost before = out@;
            out.push('\u{FFFD}');
            assert(rest.drop_first() =~= u.skip(i + 1));
            assert(out@ + spec_decode_units(u.skip(i + 1)) =~= before + spec_decode_units(rest));
            i = i + 1;
        }
    }
    assert(u.skip(n as int) =~= Seq::<int>::empty());
    assert(out@ + Seq::<char>::empty() =~= out@);
    if b.len() % 2 == 1 {
        out.push('\u{FFFD}');
    }
    string_of(&out)
}

/// The text of a PDF string: UTF-16 big-endian after a `FE FF` byte order
/// mark, UTF-8 otherwise.
pub open spec fn spec_pdf_text(bytes: Seq<u8>) -> Seq<char> {
    if bytes.len() >= 2 && bytes[0] == 0xFEu8 && bytes[1] == 0xFFu8 {
        spec_utf16be_lossy(bytes.skip(2))
    } else {
        spec_utf8_lossy(bytes)
    }
}

/// Decodes the bytes of a PDF text string, honouring a UTF-16BE byte order
/// mark.
pub fn pdf_text(bytes: &Vec<u8>) -> (r: String)
    ensures
        r@ == spec_pdf_text(bytes@),
{
    if bytes.len() >= 2 && bytes[0] == 0xFE && bytes[1] == 0xFF {
        let mut rest: Vec<u8> = Vec::new();
        let mut i: usize = 2;
        while i < bytes.len()
            invariant
                2 <= i <= bytes.len(),
                rest@ == bytes@.subrange(2, i as int),
            decreases bytes.len() - i,
        {
            rest.push(bytes[i]);
            i = i + 1;
            assert(rest@ =~= bytes@.subrange(2, i as int));
        }
        assert(rest@ =~= bytes@.skip(2));
        utf16be_lossy(&rest)
    } else {
        utf8_lossy(bytes.as_slice())
    }
}

/// The pattern that picks the text operands out of a content stream.
pub const PDF_TEXT_PATTERN: &'static str = r"\(([^)]+)\)";

/// The text of a page: each parenthesised run in the decoded content stream,
/// followed by a space.
pub open spec fn spec_page_text(content: Seq<u8>) -> Seq<char> {
    spec_join_spaced(spec_regex_group1_all(PDF_TEXT_PATTERN@, spec_utf8_lossy(content)))
}

/// Each present piece followed by a space, in order.
pub open spec fn spec_join_spaced(pieces: Seq<Option<Seq<char>>>) -> Seq<char>
    decreases pieces.len(),
{
    if pieces.len() == 0 {
        Seq::<char>::empty()
    } else {
        spec_join_spaced(pieces.drop_last()) + match pieces.last() {
            Some(p) => p.push(' '),
            None => Seq::<char>::empty(),
        }
    }
}

/// Extracts the text of a page from its decoded content stream. The pattern
/// is a fixed, valid one; were it ever refused, the page would have no text.
pub fn page_text(content: &Vec<u8>) -> (r: String)
    ensures
        crate::pattern::spec_regex_valid(PDF_TEXT_PATTERN@) ==> r@ == spec_page_text(content@),
{
    let decoded = utf8_lossy(content.as_slice());
    let caps = match regex_group1_all(PDF_TEXT_PATTERN, decoded.as_str()) {
        Some(c) => c,
        None => return String::new(),
    };
    let ghost spec_caps = spec_regex_group1_all(PDF_TEXT_PATTERN@, decoded@);
    let mut out: Vec<char> = Vec::new();
    let mut i: usize = 0;
    assert(spec_caps.take(0) =~= Seq::<Option<Seq<char>>>::empty());
    while i < caps.len()
        invariant
            i <= caps.len(),
            caps@.len() == spec_caps.len(),
            forall|j: int| 0 <= j < caps@.len() ==> (#[trigger] caps@[j] is Some <==> spec_caps[j] is Some),
            forall|j: int| 0 <= j < caps@.len() && #[trigger] caps@[j] is Some ==> caps@[j]->Some_0@ == spec_caps[j]->Some_0,
            out@ == spec_join_spaced(spec_caps.take(i as int)),
        decreases caps.len() - i,
    {
        assert(spec_caps.take(i + 1).drop_last() =~= spec_caps.take(i as int));
        match &caps[i] {
            Some(piece) => {
                let cs = chars_of(piece.as_str());
                let ghost before = out@;
                let mut k: usize = 0;
                while k < cs.len()
                    invariant
                        k <= cs.len(),
                        out@ == before + cs@.take(k as int),
                    decreases cs.len() - k,
                {
                    out.push(cs[k]);
                    k = k + 1;
                    assert(out@ =~= before + cs@.take(k as int));
                }
                out.push(' ');
                assert(cs@.take(cs@.len() as int) =~= cs@);
                assert(out@ =~= before + cs@.push(' '));
            },
            None => {
                assert(out@ =~= out@ + Seq::<char>::empty());
            },
        }
        i = i + 1;
    }
    assert(spec_caps.take(caps@.len() as int) =~= spec_caps);
    string_of(&out)
}

/// The pages of a document as (number, text), numbered from 1 in document
/// order; a page whose content stream could not be read is left out but keeps
/// its number.
pub open spec fn spec_pages(contents: Seq<Option<Vec<u8>>>) -> Seq<(int, Seq<char>)>
    decreases contents.len(),
{
    if contents.len() == 0 {
        Seq::<(int, Seq<char>)>::empty()
    } else {
        let prev = spec_pages(contents.drop_last());
        match contents.last() {
            Some(c) => prev.push((contents.len() as int, spec_page_text(c@))),
            None => prev,
        }
    }
}

/// Extracts the text of every page from its content stream (`None` where the
/// page has no readable content stream).
pub fn pages_from_contents(contents: &Vec<Option<Vec<u8>>>) -> (r: Vec<PageContent>)
    requires
        contents@.len() <= u32::MAX,
    ensures
        r@.len() == spec_pages(contents@).len(),
        forall|i: int| 0 <= i < r@.len() ==> #[trigger] r@[i].page_number == spec_pages(contents@)[i].0,
        crate::pattern::spec_regex_valid(PDF_TEXT_PATTERN@) ==> forall|i: int|
            0 <= i < r@.len() ==> #[trigger] r@[i].text@ == spec_pages(contents@)[i].1,
{
    let mut out: Vec<PageContent> = Vec::new();
    let mut i: usize = 0;
    assert(contents@.take(0) =~= Seq::<Option<Vec<u8>>>::empty());
    while i < contents.len()
        invariant
            i <= contents.len(),
            contents@.len() <= u32::MAX,
            out@.len() == spec_pages(contents@.take(i as int)).len(),
            forall|k: int| 0 <= k < out@.len() ==> #[trigger] out@[k].page_number == spec_pages(contents@.take(i as int))[k].0,
            crate::pattern::spec_regex_valid(PDF_TEXT_PATTERN@) ==> forall|k: int|
                0 <= k < out@.len() ==> #[trigger] out@[k].text@ == spec_pages(contents@.take(i as int))[k].1,
        decreases contents.len() - i,
    {
        let ghost prev = out@;
        assert(contents@.take(i + 1).drop_last() =~= contents@.take(i as int));
        assert(contents@.take(i + 1).last() == contents@[i as int]);
        match &contents[i] {
            Some(bytes) => {
                let text = page_text(bytes);
                let n: u32 = (i + 1) as u32;
                out.push(PageContent { page_number: n, text });
                assert forall|k: int| 0 <= k < out@.len() implies #[trigger] out@[k].page_number == spec_pages(contents@.take(i + 1))[k].0 by {
                    if k < prev.len() {
                        assert(out@[k] == prev[k]);
                    }
                }
                assert(crate::pattern::spec_regex_valid(PDF_TEXT_PATTERN@) ==> forall|k: int| 0 <= k < out@.len() ==> #[trigger] out@[k].text@ == spec_pages(contents@.take(i + 1))[k].1) by {
                    if crate::pattern::spec_regex_valid(PDF_TEXT_PATTERN@) {
                        assert forall|k: int| 0 <= k < out@.len() implies #[trigger] out@[k].text@ == spec_pages(contents@.take(i + 1))[k].1 by {
                            if k < prev.len() {
                                assert(out@[k] == prev[k]);
                            }
                        }
                    }
                }
            },
            None => {},
        }
        i = i + 1;
    }
    assert(contents@.take(contents@.len() as int) =~= contents@);
    out
}

/// The metadata of a document from the raw bytes of its `Title`, `Author`,
/// `Subject` and `Keywords` entries.
pub fn metadata_from_entries(
    title: &Option<Vec<u8>>,
    author: &Option<Vec<u8>>,
    subject: &Option<Vec<u8>>,
    keywords: &Option<Vec<u8>>,
) -> (r: PDFMetadata)
    ensures
        r.title is Some <==> title is Some,
        title is Some ==> r.title->Some_0@ == spec_pdf_text(title->Some_0@),
        r.author is Some <==> author is Some,
        author is Some ==> r.author->Some_0@ == spec_pdf_text(author->Some_0@),
        r.subject is Some <==> subject is Some,
        subject is Some ==> r.subject->Some_0@ == spec_pdf_text(subject->Some_0@),
        r.keywords is Some <==> keywords is Some,
        keywords is Some ==> r.keywords->Some_0@ == spec_pdf_text(keywords->Some_0@),
{
    PDFMetadata {
        title: decode_entry(title),
        author: decode_entry(author),
        subject: decode_entry(subject),
        keywords: decode_entry(keywords),
    }
}

fn decode_entry(e: &Option<Vec<u8>>) -> (r: Option<String>)
    ensures
        r is Some <==> e is Some,
        e is Some ==> r->Some_0@ == spec_pdf_text(e->Some_0@),
{
    match e {
        Some(b) => Some(pdf_text(b)),
        None => None,
    }
}

impl PDFContentBuilder {
    /// The path set so far.
    pub closed spec fn spec_path(&self) -> Option<String> {
        self.path
    }

    /// Creates a new builder with no path.
    pub fn new() -> (r: PDFContentBuilder)
        ensures
            r.spec_path() is None,
    {
        PDFContentBuilder { path: None }
    }

    /// Sets the path to the PDF file to analyze.
    pub fn path(self, path: &str) -> (r: PDFContentBuilder)
        ensures
            r.spec_path() matches Some(p) && p@ == path@,
    {
        PDFContentBuilder { path: Some(owned(path)) }
    }

    /// The path to analyze, if one was set.
    pub fn target(&self) -> (r: Option<String>)
        ensures
            r == self.spec_path(),
    {
        self.path.clone()
    }
}

} // verus!
