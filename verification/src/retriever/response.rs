//! How responses are read: their formats, how fields are mapped out of them,
//! and how their text is cleaned.
use vstd::prelude::*;

use crate::json::{deep_all, deep_all_entries, lemma_deep_all, lemma_deep_all_entries, JsonSpec, JsonValue};
use crate::pattern::{regex_replace_all, spec_regex_replace_all, spec_regex_valid};
use crate::text::{
    chars_of, contains_char, is_whitespace, owned, replace_all, spec_is_whitespace, spec_replace_all, spec_trim,
    string_of, trim,
};

verus! {

broadcast use vstd::std_specs::vec::group_vec_axioms;

/// How a retriever's responses are to be read.
#[derive(Debug)]
pub enum ResponseFormat {
    /// An XML document.
    Xml {
        /// Whether to strip XML namespace declarations and prefixes.
        strip_namespaces: bool,
        /// Whether to clean content by removing markup tags and normalizing
        /// whitespace.
        clean_content: bool,
    },
    /// A JSON document.
    Json {
        /// Whether to clean string values by removing markup and normalizing
        /// content.
        clean_content: bool,
    },
}

/// How the value of a field is found in a response.
#[derive(Debug)]
pub enum Mapping {
    /// A single path, components separated by `/`.
    Path(String),
    /// The strings at several paths, joined with a delimiter.
    Join { paths: Vec<String>, with: String },
    /// An object (or, from an array, one object per element) whose entries
    /// are mapped in turn, keys in order.
    Object { from: Option<String>, map: Vec<(String, Mapping)> },
}

/// How a field is found in a response and transformed.
#[derive(Debug)]
pub struct FieldMap {
    /// Path to the field in the response.
    pub path: String,
    /// Transformation applied to the extracted value.
    pub transform: Option<Transform>,
}

/// Transformations of extracted field values.
#[derive(Debug)]
pub enum Transform {
    /// Replace text matching a regex pattern.
    Replace { pattern: String, replacement: String },
    /// Convert between date formats (chrono syntax).
    Date { from_format: String, to_format: String },
    /// Construct a URL from a base (which may hold `{value}`) and a suffix.
    Url { base: String, suffix: Option<String> },
    /// Combine several sources into one value.
    Compose { sources: Vec<Source>, format: ComposeFormat },
}

/// A part of a composed value.
#[derive(Debug)]
pub enum Source {
    /// The value at a path.
    Path(String),
    /// A literal text.
    Literal(String),
    /// The value at a path, under a new key.
    KeyValue { key: String, path: String },
}

/// How composed parts are combined.
#[derive(Debug)]
pub enum ComposeFormat {
    /// Joined with a delimiter.
    Join { delimiter: String },
    /// As an object of key-value pairs.
    Object,
    /// As an array of objects shaped by a template (key to path).
    ArrayOfObjects { template: Vec<(String, String)> },
}

/// Field mappings for JSON responses, by field name.
#[derive(Debug)]
pub struct JsonConfig {
    pub field_maps: Vec<(String, FieldMap)>,
}

/// Options for XML responses.
#[derive(Debug)]
pub struct XmlConfig {
    /// Whether to remove namespace declarations and prefixes.
    pub strip_namespaces: bool,
}

/// The delimiter of a join when the configuration gives none: the empty text.
pub fn default_delimiter() -> (r: String)
    ensures
        r@ == Seq::<char>::empty(),
{
    String::new()
}

// ---------------------------------------------------------------------------
// Namespaces
// ---------------------------------------------------------------------------

/// Namespace declarations: `xmlns="..."` and `xmlns:prefix="..."`.
pub const NAMESPACE_DECLARATION: &'static str = "xmlns(?::\\w+)?=\"[^\"]*\"";

/// The text with a regex's matches replaced, when the regex compiles (it
/// is left as it is otherwise).
pub open spec fn spec_regex_step(pattern: Seq<char>, text: Seq<char>, rep: Seq<char>) -> Seq<char> {
    if spec_regex_valid(pattern) {
        spec_regex_replace_all(pattern, text, rep)
    } else {
        text
    }
}

fn regex_step(pattern: &str, text: String, rep: &str) -> (r: String)
    ensures
        r@ == spec_regex_step(pattern@, text@, rep@),
{
    match regex_replace_all(pattern, text.as_str(), rep) {
        Some(out) => out,
        None => text,
    }
}

/// Whether a character ends the name of an element in a tag.
pub open spec fn spec_is_name_stop(c: char) -> bool {
    spec_is_whitespace(c) || c == '>' || c == '/'
}

/// Whether a character can begin the name of an element.
pub open spec fn spec_is_name_start(c: char) -> bool {
    ('a' <= c && c <= 'z') || ('A' <= c && c <= 'Z') || c == '_'
}

/// The index at which the name that begins at `j` ends: the first index
/// from `j` on that holds a whitespace, `>` or `/`, or the end of the text.
pub open spec fn spec_name_end(s: Seq<char>, j: int) -> int
    decreases s.len() - j,
{
    if j < 0 || j >= s.len() || spec_is_name_stop(s[j]) {
        j
    } else {
        spec_name_end(s, j + 1)
    }
}

/// A name ends at or after where it begins, and within the text.
pub proof fn lemma_name_end(s: Seq<char>, j: int)
    requires
        0 <= j <= s.len(),
    ensures
        j <= spec_name_end(s, j) <= s.len(),
    decreases s.len() - j,
{
    if j < s.len() && !spec_is_name_stop(s[j]) {
        lemma_name_end(s, j + 1);
    }
}

/// The first index in `j..n` that holds a colon.
pub open spec fn spec_first_colon(s: Seq<char>, j: int, n: int) -> Option<int>
    decreases n - j,
{
    if j >= n {
        None
    } else if s[j] == ':' {
        Some(j)
    } else {
        spec_first_colon(s, j + 1, n)
    }
}

/// A colon found in `j..n` lies there.
proof fn lemma_first_colon(s: Seq<char>, j: int, n: int)
    ensures
        spec_first_colon(s, j, n) matches Some(c) ==> j <= c < n,
    decreases n - j,
{
    if j < n && s[j] != ':' {
        lemma_first_colon(s, j + 1, n);
    }
}

/// The text from index `i` on with the namespace prefix taken off the name
/// of every element: after each `<` or `</`, a name that begins with a
/// letter or `_` and holds a colon loses everything up to its first colon.
pub open spec fn spec_strip_prefixes_from(s: Seq<char>, i: int) -> Seq<char>
    decreases s.len() - i,
{
    if i < 0 || i >= s.len() {
        seq![]
    } else if s[i] == '<' {
        let k = if i + 1 < s.len() && s[i + 1] == '/' {
            i + 2
        } else {
            i + 1
        };
        let n = spec_name_end(s, k);
        proof {
            lemma_name_end(s, k);
        }
        let colon = if k < n && spec_is_name_start(s[k]) {
            spec_first_colon(s, k, n)
        } else {
            None
        };
        match colon {
            Some(c) => s.subrange(i, k) + s.subrange(c + 1, n) + spec_strip_prefixes_from(s, n),
            None => s.subrange(i, n) + spec_strip_prefixes_from(s, n),
        }
    } else {
        seq![s[i]] + spec_strip_prefixes_from(s, i + 1)
    }
}

/// The XML text without namespace declarations and without namespace
/// prefixes on element names; the texts `oai_dc:` and `dc:` are removed
/// everywhere before the prefixes are.
pub open spec fn spec_strip_xml_namespaces(xml: Seq<char>) -> Seq<char> {
    let a = spec_regex_step(NAMESPACE_DECLARATION@, xml, ""@);
    let b = spec_replace_all(spec_replace_all(a, "oai_dc:"@, ""@), "dc:"@, ""@);
    spec_strip_prefixes_from(b, 0)
}

/// Appends the characters `a..b` of `v` to `out`.
fn push_range(out: &mut Vec<char>, v: &Vec<char>, a: usize, b: usize)
    requires
        a <= b <= v.len(),
    ensures
        final(out)@ == old(out)@ + v@.subrange(a as int, b as int),
{
    let ghost start = out@;
    let mut j: usize = a;
    while j < b
        invariant
            a <= j <= b,
            b <= v.len(),
            out@ == start + v@.subrange(a as int, j as int),
        decreases b - j,
    {
        out.push(v[j]);
        j = j + 1;
        assert(out@ =~= start + v@.subrange(a as int, j as int));
    }
}

fn is_name_stop(c: char) -> (r: bool)
    ensures
        r == spec_is_name_stop(c),
{
    is_whitespace(c) || c == '>' || c == '/'
}

fn is_name_start(c: char) -> (r: bool)
    ensures
        r == spec_is_name_start(c),
{
    ('a' <= c && c <= 'z') || ('A' <= c && c <= 'Z') || c == '_'
}

/// Takes the namespace prefix off the name of every element (see
/// `spec_strip_prefixes_from`).
fn strip_element_prefixes(text: &str) -> (r: String)
    ensures
        r@ == spec_strip_prefixes_from(text@, 0),
{
    let v = chars_of(text);
    let len = v.len();
    let mut out: Vec<char> = Vec::new();
    let mut i: usize = 0;
    while i < len
        invariant
            v@ == text@,
            len == v.len(),
            i <= len,
            out@ + spec_strip_prefixes_from(v@, i as int) == spec_strip_prefixes_from(v@, 0),
        decreases len - i,
    {
        let ghost before = out@;
        if v[i] == '<' {
            let k: usize = if i + 1 < len && v[i + 1] == '/' {
                i + 2
            } else {
                i + 1
            };
            let mut n: usize = k;
            while n < len && !is_name_stop(v[n])
                invariant
                    k <= n <= len,
                    len == v.len(),
                    spec_name_end(v@, k as int) == spec_name_end(v@, n as int),
                decreases len - n,
            {
                n = n + 1;
            }
            assert(n == spec_name_end(v@, k as int));
            let mut colon: Option<usize> = None;
            if k < n && is_name_start(v[k]) {
                let mut j: usize = k;
                while j < n && v[j] != ':'
                    invariant
                        k <= j <= n,
                        n <= len,
                        len == v.len(),
                        spec_first_colon(v@, k as int, n as int) == spec_first_colon(v@, j as int, n as int),
                    decreases n - j,
                {
                    j = j + 1;
                }
                if j < n {
                    colon = Some(j);
                }
            }
            proof {
                lemma_first_colon(v@, k as int, n as int);
            }
            match colon {
                Some(c) => {
                    push_range(&mut out, &v, i, k);
                    push_range(&mut out, &v, c + 1, n);
                },
                None => {
                    push_range(&mut out, &v, i, n);
                },
            }
            proof {
                let s = v@;
                let colon_spec = if k < n && spec_is_name_start(s[k as int]) {
                    spec_first_colon(s, k as int, n as int)
                } else {
                    None
                };
                assert(colon_spec == match colon {
                    Some(c) => Some(c as int),
                    None => None::<int>,
                });
                assert(out@ + spec_strip_prefixes_from(s, n as int) =~= spec_strip_prefixes_from(s, 0));
            }
            i = n;
        } else {
            out.push(v[i]);
            proof {
                assert(out@ + spec_strip_prefixes_from(v@, i + 1) =~= before + spec_strip_prefixes_from(
                    v@,
                    i as int,
                ));
            }
            i = i + 1;
        }
    }
    assert(out@ =~= spec_strip_prefixes_from(v@, 0));
    string_of(&out)
}

/// Removes XML namespace declarations and the namespace prefixes of element
/// names, for simpler path-based access.
pub fn strip_xml_namespaces(xml: &str) -> (r: String)
    ensures
        r@ == spec_strip_xml_namespaces(xml@),
{
    proof {
        reveal_strlit("oai_dc:");
        reveal_strlit("dc:");
    }
    let a = regex_step(NAMESPACE_DECLARATION, owned(xml), "");
    let b = replace_all(a.as_str(), "oai_dc:", "");
    let c = replace_all(b.as_str(), "dc:", "");
    strip_element_prefixes(c.as_str())
}

// ---------------------------------------------------------------------------
// Cleaning
// ---------------------------------------------------------------------------

/// Opening JATS tags.
pub const JATS_OPEN_TAG: &'static str = "<jats:[^>]+>";
/// Closing JATS tags.
pub const JATS_CLOSE_TAG: &'static str = "</jats:[^>]+>";
/// Generic XML tags.
pub const ANY_TAG: &'static str = "<[^>]+>";
/// Any remaining XML-like tags.
pub const XML_LIKE_TAG: &'static str = "</?[a-zA-Z][^>]*>";
/// Runs of whitespace.
pub const WHITESPACE_RUN: &'static str = "\\s+";

/// The text with markup tags removed and whitespace normalized: each tag
/// pattern in turn is removed, then the text is trimmed and each run of
/// whitespace becomes one space.
pub open spec fn spec_clean_content(s: Seq<char>) -> Seq<char> {
    let a = spec_regex_step(JATS_OPEN_TAG@, s, ""@);
    let b = spec_regex_step(JATS_CLOSE_TAG@, a, ""@);
    let c = spec_regex_step(ANY_TAG@, b, ""@);
    let d = spec_regex_step(XML_LIKE_TAG@, c, ""@);
    if spec_regex_valid(WHITESPACE_RUN@) {
        spec_regex_replace_all(WHITESPACE_RUN@, spec_trim(d), " "@)
    } else {
        d
    }
}

/// Removes markup tags and normalizes whitespace.
pub fn clean_content(s: &str) -> (r: String)
    ensures
        r@ == spec_clean_content(s@),
{
    let a = regex_step(JATS_OPEN_TAG, owned(s), "");
    let b = regex_step(JATS_CLOSE_TAG, a, "");
    let c = regex_step(ANY_TAG, b, "");
    let d = regex_step(XML_LIKE_TAG, c, "");
    let t = trim(d.as_str());
    match regex_replace_all(WHITESPACE_RUN, t.as_str(), " ") {
        Some(out) => out,
        None => d,
    }
}

/// The value with every string that holds markup (a `<`) or a line break
/// cleaned, at any depth.
pub open spec fn spec_clean(v: JsonSpec) -> JsonSpec
    decreases v, 0int,
{
    match v {
        JsonSpec::Str(s) => if s.contains('<') || s.contains('\n') {
            JsonSpec::Str(spec_clean_content(s))
        } else {
            v
        },
        JsonSpec::Array(items) => JsonSpec::Array(spec_clean_items(items, items.len() as int)),
        JsonSpec::Object(entries) => JsonSpec::Object(spec_clean_entries(entries, entries.len() as int)),
        _ => v,
    }
}

/// The first `n` items, cleaned.
pub open spec fn spec_clean_items(items: Seq<JsonSpec>, n: int) -> Seq<JsonSpec>
    decreases items, n,
{
    if n <= 0 || n > items.len() {
        seq![]
    } else {
        spec_clean_items(items, n - 1).push(spec_clean(items[n - 1]))
    }
}

/// The first `n` entries, values cleaned.
pub open spec fn spec_clean_entries(entries: Seq<(Seq<char>, JsonSpec)>, n: int) -> Seq<(Seq<char>, JsonSpec)>
    decreases entries, n,
{
    if n <= 0 || n > entries.len() {
        seq![]
    } else {
        proof {
            assert(decreases_to!(entries => entries[n - 1]));
        }
        spec_clean_entries(entries, n - 1).push((entries[n - 1].0, spec_clean(entries[n - 1].1)))
    }
}

proof fn lemma_clean_items(items: Seq<JsonSpec>, n: int)
    requires
        0 <= n <= items.len(),
    ensures
        spec_clean_items(items, n).len() == n,
        forall|j: int| 0 <= j < n ==> #[trigger] spec_clean_items(items, n)[j] == spec_clean(items[j]),
    decreases n,
{
    if n > 0 {
        lemma_clean_items(items, n - 1);
    }
}

proof fn lemma_clean_entries(entries: Seq<(Seq<char>, JsonSpec)>, n: int)
    requires
        0 <= n <= entries.len(),
    ensures
        spec_clean_entries(entries, n).len() == n,
        forall|j: int|
            0 <= j < n ==> #[trigger] spec_clean_entries(entries, n)[j] == (entries[j].0, spec_clean(entries[j].1)),
    decreases n,
{
    if n > 0 {
        lemma_clean_entries(entries, n - 1);
    }
}

/// The value, cleaned.
#[verifier::loop_isolation(false)]
fn cleaned(v: &JsonValue) -> (r: JsonValue)
    ensures
        r.deep() == spec_clean(v.deep()),
    decreases v,
{
    match v {
        JsonValue::String(s) => {
            let cs = chars_of(s.as_str());
            if contains_char(&cs, '<') || contains_char(&cs, '\n') {
                JsonValue::String(clean_content(s.as_str()))
            } else {
                JsonValue::String(s.clone())
            }
        },
        JsonValue::Array(items) => {
            let mut out: Vec<JsonValue> = Vec::new();
            let mut i: usize = 0;
            while i < items.len()
                invariant
                    i <= items.len(),
                    out.len() == i,
                    forall|j: int| 0 <= j < i ==> #[trigger] out@[j].deep() == spec_clean(items@[j].deep()),
                decreases items.len() - i,
            {
                proof {
                    assert(decreases_to!(*v => v->Array_0));
                    assert(decreases_to!(v->Array_0 => v->Array_0[i as int]));
                }
                out.push(cleaned(&items[i]));
                i = i + 1;
            }
            proof {
                lemma_deep_all(out@);
                lemma_deep_all(items@);
                lemma_clean_items(deep_all(items@), items@.len() as int);
            }
            assert(deep_all(out@) =~= spec_clean_items(deep_all(items@), items@.len() as int));
            JsonValue::Array(out)
        },
        JsonValue::Object(entries) => {
            let mut out: Vec<(String, JsonValue)> = Vec::new();
            let mut i: usize = 0;
            while i < entries.len()
                invariant
                    i <= entries.len(),
                    out.len() == i,
                    forall|j: int|
                        0 <= j < i ==> #[trigger] out@[j].0@ == entries@[j].0@ && out@[j].1.deep() == spec_clean(
                            entries@[j].1.deep(),
                        ),
                decreases entries.len() - i,
            {
                proof {
                    assert(decreases_to!(*v => v->Object_0));
                    assert(decreases_to!(v->Object_0 => v->Object_0[i as int]));
                    assert(decreases_to!(v->Object_0[i as int] => v->Object_0[i as int].1));
                }
                let c = cleaned(&entries[i].1);
                let key = entries[i].0.clone();
                let ghost pre = out@;
                out.push((key, c));
                assert(out@[i as int].0@ == entries@[i as int].0@);
                assert(out@[i as int].1.deep() == spec_clean(entries@[i as int].1.deep()));
                assert forall|j: int| 0 <= j < i + 1 implies #[trigger] out@[j].0@ == entries@[j].0@
                    && out@[j].1.deep() == spec_clean(entries@[j].1.deep()) by {
                    if j < i {
                        assert(out@[j] == pre[j]);
                    }
                }
                i = i + 1;
            }
            proof {
                lemma_deep_all_entries(out@);
                lemma_deep_all_entries(entries@);
                lemma_clean_entries(deep_all_entries(entries@), entries@.len() as int);
            }
            assert(deep_all_entries(out@) =~= spec_clean_entries(
                deep_all_entries(entries@),
                entries@.len() as int,
            ));
            JsonValue::Object(out)
        },
        JsonValue::Null => JsonValue::Null,
        JsonValue::Bool(b) => JsonValue::Bool(*b),
        JsonValue::Number(n) => JsonValue::Number(*n),
    }
}

/// Cleans every string in the value that holds markup (a `<`) or a line
/// break, at any depth.
pub fn clean_value(value: &mut JsonValue)
    ensures
        final(value).deep() == spec_clean(old(value).deep()),
{
    let c = cleaned(value);
    *value = c;
}

} // verus!
