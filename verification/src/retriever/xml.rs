//! XML documents as JSON values, through `quick_xml`'s reader.
//!
//! The reader turns a document into events; the library folds the events
//! into a JSON object: an element becomes an entry under its name, holding
//! its attributes (as `@name`) and its text (as `$text`, or the bare text
//! when it has nothing else); repeated elements become an array.
use vstd::prelude::*;

use quick_xml::events::Event;

use crate::json::{
    clone_json, deep_all, deep_all_entries, find_entry, lemma_deep_all, lemma_deep_all_entries, put, spec_get,
    spec_put, JsonSpec, JsonValue,
};
use crate::text::{owned, spec_byte_len, spec_trim, trim};

verus! {

broadcast use vstd::std_specs::vec::group_vec_axioms;

/// An event of the XML reader, as the library reads it.
#[derive(Debug)]
pub enum XmlEvent {
    /// The start of an element: its name, the text inside its tag (name and
    /// attributes), and the length of its name in bytes.
    Start(String, String, usize),
    /// Text, unescaped; `None` when it could not be unescaped.
    Text(Option<String>),
    /// The end of an element.
    End,
    /// Anything else: empty elements, comments, declarations, CDATA,
    /// processing instructions, doctypes.
    Other,
}

/// The value of an event.
pub enum XmlEventView {
    Start(Seq<char>, Seq<char>, usize),
    Text(Option<Seq<char>>),
    End,
    Other,
}

impl XmlEvent {
    /// The value of the event.
    pub open spec fn view_event(self) -> XmlEventView {
        match self {
            XmlEvent::Start(n, raw, len) => XmlEventView::Start(n@, raw@, len),
            XmlEvent::Text(t) => XmlEventView::Text(
                match t {
                    Some(s) => Some(s@),
                    None => None,
                },
            ),
            XmlEvent::End => XmlEventView::End,
            XmlEvent::Other => XmlEventView::Other,
        }
    }
}

/// The values of events.
pub open spec fn event_views(v: Seq<XmlEvent>) -> Seq<XmlEventView> {
    v.map_values(|e: XmlEvent| e.view_event())
}

/// The values of attributes.
pub open spec fn attribute_views(v: Seq<Option<(String, String)>>) -> Seq<Option<(Seq<char>, Seq<char>)>> {
    v.map_values(
        |a: Option<(String, String)>|
            match a {
                Some(p) => Some((p.0@, p.1@)),
                None => None,
            },
    )
}

/// The events that `quick_xml::Reader::from_str(data)` reads, up to its end
/// of file or its first error.
pub uninterp spec fn spec_xml_events(data: Seq<char>) -> Seq<XmlEventView>;

/// The attributes of a start tag whose text is `raw` and whose name is
/// `name_len` bytes long, as `BytesStart::attributes` reads them: each as
/// `(key, unescaped value)`, or `None` for an attribute that is malformed,
/// whose key is not UTF-8 or whose value cannot be unescaped.
pub uninterp spec fn spec_xml_attributes(raw: Seq<char>, name_len: usize) -> Seq<Option<(Seq<char>, Seq<char>)>>;

/// Reads the events of an XML document with `quick_xml::Reader::from_str`
/// and `read_event`, until the end of the file or the first error. The
/// contract names the events, and says that the name of a start tag is a
/// prefix of the tag's text, so its length is within the text's length.
#[verifier::external_body]
fn xml_events(data: &str) -> (r: Vec<XmlEvent>)
    ensures
        event_views(r@) == spec_xml_events(data@),
        forall|i: int|
            0 <= i < r@.len() ==> (#[trigger] r@[i] matches XmlEvent::Start(_, raw, len) ==> len
                <= spec_byte_len(raw@)),
{
    let mut reader = quick_xml::Reader::from_str(data);
    let mut out = Vec::new();
    while let Ok(event) = reader.read_event() {
        let ev = match event {
            Event::Start(e) => XmlEvent::Start(String::from_utf8_lossy(e.name().as_ref()).into_owned(), String::from_utf8_lossy(&e).into_owned(), e.name().as_ref().len()),
            Event::Text(e) => XmlEvent::Text(e.unescape().ok().map(|t| t.into_owned())),
            Event::End(_) => XmlEvent::End,
            Event::Eof => break,
            _ => XmlEvent::Other,
        };
        out.push(ev);
    }
    out
}

/// Reads the attributes of a start tag with `BytesStart::from_content(raw,
/// name_len).attributes()`, unescaping each value with `unescape_value`. The
/// contract names them. The reader slices the text from `name_len` on, so
/// `name_len` must be within the text's length in bytes.
#[verifier::external_body]
fn xml_attributes(raw: &str, name_len: usize) -> (r: Vec<Option<(String, String)>>)
    requires
        name_len <= spec_byte_len(raw@),
    ensures
        attribute_views(r@) == spec_xml_attributes(raw@, name_len),
{
    let start = quick_xml::events::BytesStart::from_content(raw, name_len);
    let mut out = Vec::new();
    for a in start.attributes() {
        out.push(match a {
            Ok(a) => match (String::from_utf8(a.key.as_ref().to_vec()), a.unescape_value()) {
                (Ok(k), Ok(v)) => Some((k, v.into_owned())),
                _ => None,
            },
            Err(_) => None,
        });
    }
    out
}

/// An element being read: its name, the entries of its parent so far, and
/// whether the parent holds its name as an array.
pub type Frame = (Seq<char>, Seq<(Seq<char>, JsonSpec)>, bool);

/// The entries `acc` with attributes `0..n` put in, each as `@key`.
pub open spec fn spec_attribute_entries(attrs: Seq<Option<(Seq<char>, Seq<char>)>>, n: int) -> Seq<
    (Seq<char>, JsonSpec),
>
    decreases n,
{
    if n <= 0 || n > attrs.len() {
        seq![]
    } else {
        let acc = spec_attribute_entries(attrs, n - 1);
        match attrs[n - 1] {
            Some(p) => spec_put(acc, "@"@ + p.0, JsonSpec::Str(p.1)),
            None => acc,
        }
    }
}

/// What one event does to the stack of open elements and the entries of the
/// element being read.
pub open spec fn spec_step(state: (Seq<Frame>, Seq<(Seq<char>, JsonSpec)>), ev: XmlEventView) -> (
    Seq<Frame>,
    Seq<(Seq<char>, JsonSpec)>,
) {
    let (stack, current) = state;
    match ev {
        XmlEventView::Start(tag, raw, len) => {
            let attrs = spec_xml_attributes(raw, len);
            let fresh = spec_attribute_entries(attrs, attrs.len() as int);
            match spec_get(current, tag) {
                Some(JsonSpec::Array(_)) => (stack.push((tag, current, true)), fresh),
                Some(existing) => (
                    stack.push((tag, spec_put(current, tag, JsonSpec::Array(seq![existing])), true)),
                    fresh,
                ),
                None => (stack.push((tag, current, false)), fresh),
            }
        },
        XmlEventView::Text(Some(txt)) => {
            let text = spec_trim(txt);
            if text.len() > 0 {
                (stack, spec_put(current, "$text"@, JsonSpec::Str(text)))
            } else {
                (stack, current)
            }
        },
        XmlEventView::End => if stack.len() == 0 {
            (stack, current)
        } else {
            let (tag, parent, is_array) = stack.last();
            let value = if current.len() == 1 && spec_get(current, "$text"@) is Some {
                spec_get(current, "$text"@)->Some_0
            } else {
                JsonSpec::Object(current)
            };
            let next = if is_array {
                match spec_get(parent, tag) {
                    Some(JsonSpec::Array(arr)) => spec_put(parent, tag, JsonSpec::Array(arr.push(value))),
                    _ => parent,
                }
            } else {
                spec_put(parent, tag, value)
            };
            (stack.drop_last(), next)
        },
        _ => (stack, current),
    }
}

/// The state after the first `n` events.
pub open spec fn spec_run(evs: Seq<XmlEventView>, n: int) -> (Seq<Frame>, Seq<(Seq<char>, JsonSpec)>)
    decreases n,
{
    if n <= 0 || n > evs.len() {
        (seq![], seq![])
    } else {
        spec_step(spec_run(evs, n - 1), evs[n - 1])
    }
}

/// The JSON value of an XML document: the entries of the top level after
/// all the events that the reader reads.
pub open spec fn spec_xml_to_json(data: Seq<char>) -> JsonSpec {
    let evs = spec_xml_events(data);
    JsonSpec::Object(spec_run(evs, evs.len() as int).1)
}


/// The value of an element being read.
pub open spec fn frame_view(f: (String, Vec<(String, JsonValue)>, bool)) -> Frame {
    (f.0@, deep_all_entries(f.1@), f.2)
}

/// The values of the elements being read.
pub open spec fn stack_view(v: Seq<(String, Vec<(String, JsonValue)>, bool)>) -> Seq<Frame> {
    v.map_values(|f: (String, Vec<(String, JsonValue)>, bool)| frame_view(f))
}

/// The entries of a new element: its attributes, each as `@key`.
fn attribute_entries(raw: &str, name_len: usize) -> (r: Vec<(String, JsonValue)>)
    requires
        name_len <= spec_byte_len(raw@),
    ensures
        deep_all_entries(r@) == spec_attribute_entries(
            spec_xml_attributes(raw@, name_len),
            spec_xml_attributes(raw@, name_len).len() as int,
        ),
{
    let attrs = xml_attributes(raw, name_len);
    let ghost a = attribute_views(attrs@);
    let mut out: Vec<(String, JsonValue)> = Vec::new();
    proof {
        lemma_deep_all_entries(out@);
    }
    let mut j: usize = 0;
    while j < attrs.len()
        invariant
            j <= attrs.len(),
            a == attribute_views(attrs@),
            a.len() == attrs@.len(),
            deep_all_entries(out@) == spec_attribute_entries(a, j as int),
        decreases attrs.len() - j,
    {
        match &attrs[j] {
            Some(p) => {
                let key = owned("@").concat(p.0.as_str());
                put(&mut out, key, JsonValue::String(p.1.clone()));
            },
            None => {},
        }
        j = j + 1;
    }
    out
}

/// Converts an XML document to a JSON object: each element is put in its
/// parent under its name, holding its attributes as `@key` entries and its
/// trimmed, non-empty text as a `$text` entry (an element with nothing but
/// text is the text itself); an element whose name its parent already
/// holds turns that entry into an array of the elements. Reading stops at
/// the first error; the result is then the entries of the element being read
/// at that point.
#[verifier::loop_isolation(false)]
pub fn xml_to_json(data: &str) -> (r: JsonValue)
    ensures
        r.deep() == spec_xml_to_json(data@),
{
    let events = xml_events(data);
    let ghost evs = event_views(events@);
    let mut stack: Vec<(String, Vec<(String, JsonValue)>, bool)> = Vec::new();
    let mut current: Vec<(String, JsonValue)> = Vec::new();
    proof {
        lemma_deep_all_entries(current@);
        assert(stack_view(stack@) =~= Seq::<Frame>::empty());
    }
    let mut i: usize = 0;
    while i < events.len()
        invariant
            i <= events.len(),
            evs == event_views(events@),
            evs.len() == events@.len(),
            (stack_view(stack@), deep_all_entries(current@)) == spec_run(evs, i as int),
        decreases events.len() - i,
    {
        let ghost before = spec_run(evs, i as int);
        assert(evs[i as int] == events@[i as int].view_event());
        proof {
            lemma_deep_all_entries(current@);
        }
        match &events[i] {
            XmlEvent::Start(tag, raw, len) => {
                let fresh = attribute_entries(raw.as_str(), *len);
                match find_entry(&current, tag.as_str()) {
                    Some(k) => {
                        let is_array = match &current[k].1 {
                            JsonValue::Array(_) => true,
                            _ => false,
                        };
                        if !is_array {
                            let existing = clone_json(&current[k].1);
                            let mut one: Vec<JsonValue> = Vec::new();
                            one.push(existing);
                            proof {
                                lemma_deep_all(one@);
                                assert(deep_all(one@) =~= seq![current@[k as int].1.deep()]);
                            }
                            put(&mut current, owned(tag.as_str()), JsonValue::Array(one));
                        }
                        let ghost pre = stack@;
                        stack.push((owned(tag.as_str()), current, true));
                        proof {
                            assert(stack_view(stack@) =~= stack_view(pre).push(frame_view(stack@.last())));
                        }
                    },
                    None => {
                        let ghost pre = stack@;
                        stack.push((owned(tag.as_str()), current, false));
                        proof {
                            assert(stack_view(stack@) =~= stack_view(pre).push(frame_view(stack@.last())));
                        }
                    },
                }
                current = fresh;
            },
            XmlEvent::Text(Some(txt)) => {
                let t = trim(txt.as_str());
                if !t.as_str().is_empty() {
                    put(&mut current, owned("$text"), JsonValue::String(t));
                }
            },
            XmlEvent::End => {
                if stack.len() > 0 {
                    let ghost pre = stack@;
                    let (tag, mut parent, is_array) = stack.pop().unwrap();
                    proof {
                        assert(stack_view(stack@) =~= stack_view(pre).drop_last());
                        lemma_deep_all_entries(parent@);
                    }
                    let value = match find_entry(&current, "$text") {
                        Some(k) => {
                            if current.len() == 1 {
                                clone_json(&current[k].1)
                            } else {
                                JsonValue::Object(current)
                            }
                        },
                        None => JsonValue::Object(current),
                    };
                    if is_array {
                        match find_entry(&parent, tag.as_str()) {
                            Some(k) => {
                                let grown = match &parent[k].1 {
                                    JsonValue::Array(arr) => {
                                        let mut items = crate::json::clone_items(arr);
                                        let ghost pre_items = items@;
                                        items.push(value);
                                        proof {
                                            lemma_deep_all(items@);
                                            lemma_deep_all(pre_items);
                                            lemma_deep_all(arr@);
                                            assert(deep_all(items@) =~= deep_all(arr@).push(items@.last().deep()));
                                        }
                                        Some(JsonValue::Array(items))
                                    },
                                    _ => None,
                                };
                                if let Some(g) = grown {
                                    put(&mut parent, tag, g);
                                }
                            },
                            None => {},
                        }
                    } else {
                        put(&mut parent, tag, value);
                    }
                    current = parent;
                }
            },
            _ => {},
        }
        i = i + 1;
    }
    JsonValue::Object(current)
}

/// The state after events `evs`, read in order from `state`.
pub open spec fn spec_fold(state: (Seq<Frame>, Seq<(Seq<char>, JsonSpec)>), evs: Seq<XmlEventView>) -> (
    Seq<Frame>,
    Seq<(Seq<char>, JsonSpec)>,
)
    decreases evs.len(),
{
    if evs.len() == 0 {
        state
    } else {
        spec_fold(spec_step(state, evs[0]), evs.drop_first())
    }
}

/// The events of an element named `tag` holding only the text `t`: its
/// start tag (text `raw`, name length `len`), its text, its end tag.
pub open spec fn spec_text_element_events(tag: Seq<char>, raw: Seq<char>, len: usize, t: Seq<char>) -> Seq<
    XmlEventView,
> {
    seq![XmlEventView::Start(tag, raw, len), XmlEventView::Text(Some(t)), XmlEventView::End]
}

/// The events of sibling elements named `tag`, one holding each text, in
/// order.
pub open spec fn spec_siblings_events(tag: Seq<char>, raw: Seq<char>, len: usize, texts: Seq<Seq<char>>) -> Seq<
    XmlEventView,
>
    decreases texts.len(),
{
    if texts.len() == 0 {
        seq![]
    } else {
        spec_siblings_events(tag, raw, len, texts.drop_last()) + spec_text_element_events(
            tag,
            raw,
            len,
            texts.last(),
        )
    }
}

/// The texts, trimmed, as JSON strings.
pub open spec fn spec_trimmed_strings(texts: Seq<Seq<char>>) -> Seq<JsonSpec> {
    texts.map_values(|t: Seq<char>| JsonSpec::Str(spec_trim(t)))
}

proof fn lemma_fold_append(
    state: (Seq<Frame>, Seq<(Seq<char>, JsonSpec)>),
    a: Seq<XmlEventView>,
    b: Seq<XmlEventView>,
)
    ensures
        spec_fold(state, a + b) == spec_fold(spec_fold(state, a), b),
    decreases a.len(),
{
    if a.len() == 0 {
        assert(a + b =~= b);
    } else {
        assert((a + b)[0] == a[0]);
        assert((a + b).drop_first() =~= a.drop_first() + b);
        lemma_fold_append(spec_step(state, a[0]), a.drop_first(), b);
    }
}

proof fn lemma_fold_one(state: (Seq<Frame>, Seq<(Seq<char>, JsonSpec)>), e: XmlEventView)
    ensures
        spec_fold(state, seq![e]) == spec_step(state, e),
{
    let one = seq![e];
    assert(one[0] == e);
    assert(one.drop_first() =~= Seq::<XmlEventView>::empty());
    assert(spec_fold(spec_step(state, e), one.drop_first()) == spec_step(state, e));
}

proof fn lemma_run_is_fold(evs: Seq<XmlEventView>, n: int)
    requires
        0 <= n <= evs.len(),
    ensures
        spec_run(evs, n) == spec_fold((seq![], seq![]), evs.take(n)),
    decreases n,
{
    if n == 0 {
        assert(evs.take(0) =~= Seq::<XmlEventView>::empty());
    } else {
        lemma_run_is_fold(evs, n - 1);
        assert(evs.take(n) =~= evs.take(n - 1) + seq![evs[n - 1]]);
        lemma_fold_append((seq![], seq![]), evs.take(n - 1), seq![evs[n - 1]]);
        let mid = spec_fold((seq![], seq![]), evs.take(n - 1));
        lemma_fold_one(mid, evs[n - 1]);
    }
}

/// An element with no attributes and a non-blank text, read with the
/// entries `p` of its parent open: its trimmed text is put under its name
/// (the first time), or added to the array under its name (later times,
/// turning a single earlier value into an array).
proof fn lemma_text_element(
    stack: Seq<Frame>,
    p: Seq<(Seq<char>, JsonSpec)>,
    tag: Seq<char>,
    raw: Seq<char>,
    len: usize,
    t: Seq<char>,
)
    requires
        spec_xml_attributes(raw, len).len() == 0,
        spec_trim(t).len() > 0,
    ensures
        spec_fold((stack, p), spec_text_element_events(tag, raw, len, t)) == (
            stack,
            match spec_get(p, tag) {
                None => spec_put(p, tag, JsonSpec::Str(spec_trim(t))),
                Some(JsonSpec::Array(arr)) => spec_put(p, tag, JsonSpec::Array(arr.push(JsonSpec::Str(spec_trim(t))))),
                Some(v) => spec_put(p, tag, JsonSpec::Array(seq![v, JsonSpec::Str(spec_trim(t))])),
            },
        ),
{
    let evs = spec_text_element_events(tag, raw, len, t);
    let tt = JsonSpec::Str(spec_trim(t));
    let attrs = spec_xml_attributes(raw, len);
    assert(spec_attribute_entries(attrs, attrs.len() as int) == Seq::<(Seq<char>, JsonSpec)>::empty());
    let s1 = spec_step((stack, p), evs[0]);
    let s2 = spec_step(s1, evs[1]);
    let s3 = spec_step(s2, evs[2]);
    assert(evs =~= seq![evs[0]] + seq![evs[1]] + seq![evs[2]]);
    lemma_fold_append((stack, p), seq![evs[0]] + seq![evs[1]], seq![evs[2]]);
    lemma_fold_append((stack, p), seq![evs[0]], seq![evs[1]]);
    lemma_fold_one((stack, p), evs[0]);
    lemma_fold_one(s1, evs[1]);
    lemma_fold_one(s2, evs[2]);
    assert(spec_fold((stack, p), evs) == s3);
    reveal_strlit("$text");
    assert(s2.1 == spec_put(Seq::<(Seq<char>, JsonSpec)>::empty(), "$text"@, tt));
    crate::json::lemma_put_then_get(Seq::<(Seq<char>, JsonSpec)>::empty(), "$text"@, tt);
    assert(s2.1.len() == 1);
    match spec_get(p, tag) {
        None => {
            assert(s1.0 == stack.push((tag, p, false)));
            assert(s1.0.drop_last() =~= stack);
        },
        Some(JsonSpec::Array(arr)) => {
            assert(s1.0 == stack.push((tag, p, true)));
            assert(s1.0.drop_last() =~= stack);
        },
        Some(v) => {
            let parent = spec_put(p, tag, JsonSpec::Array(seq![v]));
            assert(s1.0 == stack.push((tag, parent, true)));
            assert(s1.0.drop_last() =~= stack);
            crate::json::lemma_put_then_get(p, tag, JsonSpec::Array(seq![v]));
            crate::json::lemma_put_overwrites(p, tag, JsonSpec::Array(seq![v]), JsonSpec::Array(seq![v].push(tt)));
            assert(seq![v].push(tt) =~= seq![v, tt]);
        },
    }
}

proof fn lemma_siblings(
    stack: Seq<Frame>,
    cur: Seq<(Seq<char>, JsonSpec)>,
    tag: Seq<char>,
    raw: Seq<char>,
    len: usize,
    texts: Seq<Seq<char>>,
)
    requires
        spec_xml_attributes(raw, len).len() == 0,
        texts.len() >= 1,
        forall|i: int| 0 <= i < texts.len() ==> spec_trim(#[trigger] texts[i]).len() > 0,
        spec_get(cur, tag) is None,
    ensures
        spec_fold((stack, cur), spec_siblings_events(tag, raw, len, texts)) == (
            stack,
            spec_put(
                cur,
                tag,
                if texts.len() == 1 {
                    JsonSpec::Str(spec_trim(texts[0]))
                } else {
                    JsonSpec::Array(spec_trimmed_strings(texts))
                },
            ),
        ),
    decreases texts.len(),
{
    let front = texts.drop_last();
    let last = texts.last();
    let evs = spec_siblings_events(tag, raw, len, texts);
    assert(evs == spec_siblings_events(tag, raw, len, front) + spec_text_element_events(tag, raw, len, last));
    lemma_fold_append((stack, cur), spec_siblings_events(tag, raw, len, front), spec_text_element_events(tag, raw, len, last));
    assert(spec_trim(texts[texts.len() - 1]).len() > 0);
    if texts.len() == 1 {
        assert(front.len() == 0);
        assert(spec_siblings_events(tag, raw, len, front) =~= Seq::<XmlEventView>::empty());
        lemma_text_element(stack, cur, tag, raw, len, last);
    } else {
        assert forall|i: int| 0 <= i < front.len() implies spec_trim(#[trigger] front[i]).len() > 0 by {
            assert(front[i] == texts[i]);
        }
        lemma_siblings(stack, cur, tag, raw, len, front);
        let tt = JsonSpec::Str(spec_trim(last));
        if front.len() == 1 {
            let v = JsonSpec::Str(spec_trim(front[0]));
            crate::json::lemma_put_then_get(cur, tag, v);
            lemma_text_element(stack, spec_put(cur, tag, v), tag, raw, len, last);
            crate::json::lemma_put_overwrites(cur, tag, v, JsonSpec::Array(seq![v, tt]));
            assert(spec_trimmed_strings(texts) =~= seq![v, tt]);
        } else {
            let arr = spec_trimmed_strings(front);
            crate::json::lemma_put_then_get(cur, tag, JsonSpec::Array(arr));
            lemma_text_element(stack, spec_put(cur, tag, JsonSpec::Array(arr)), tag, raw, len, last);
            crate::json::lemma_put_overwrites(cur, tag, JsonSpec::Array(arr), JsonSpec::Array(arr.push(tt)));
            assert(spec_trimmed_strings(texts) =~= arr.push(tt));
        }
    }
}

/// Repeated sibling elements become an array: when a document is a root
/// element holding `n >= 2` elements of one name, each with only a
/// non-blank text (and no attributes anywhere), its JSON value is the root
/// holding, under that name, the array of the trimmed texts: every sibling
/// kept, in document order.
pub proof fn lemma_repeated_siblings_make_array(
    data: Seq<char>,
    root: Seq<char>,
    root_raw: Seq<char>,
    root_len: usize,
    tag: Seq<char>,
    raw: Seq<char>,
    len: usize,
    texts: Seq<Seq<char>>,
)
    requires
        spec_xml_events(data) == seq![XmlEventView::Start(root, root_raw, root_len)] + spec_siblings_events(
            tag,
            raw,
            len,
            texts,
        ) + seq![XmlEventView::End],
        spec_xml_attributes(root_raw, root_len).len() == 0,
        spec_xml_attributes(raw, len).len() == 0,
        tag != "$text"@,
        texts.len() >= 2,
        forall|i: int| 0 <= i < texts.len() ==> spec_trim(#[trigger] texts[i]).len() > 0,
    ensures
        spec_xml_to_json(data) == JsonSpec::Object(
            seq![(root, JsonSpec::Object(seq![(tag, JsonSpec::Array(spec_trimmed_strings(texts)))]))],
        ),
{
    let evs = spec_xml_events(data);
    let init: (Seq<Frame>, Seq<(Seq<char>, JsonSpec)>) = (seq![], seq![]);
    let start = seq![XmlEventView::Start(root, root_raw, root_len)];
    let kids = spec_siblings_events(tag, raw, len, texts);
    let end = seq![XmlEventView::End];
    lemma_run_is_fold(evs, evs.len() as int);
    assert(evs.take(evs.len() as int) =~= evs);
    lemma_fold_append(init, start + kids, end);
    lemma_fold_append(init, start, kids);
    let attrs = spec_xml_attributes(root_raw, root_len);
    assert(spec_attribute_entries(attrs, attrs.len() as int) == Seq::<(Seq<char>, JsonSpec)>::empty());
    let empty = Seq::<(Seq<char>, JsonSpec)>::empty();
    assert(spec_get(empty, root) is None);
    let s1 = spec_step(init, start[0]);
    lemma_fold_one(init, start[0]);
    assert(spec_fold(init, start) == s1);
    let stack1 = seq![(root, empty, false)];
    assert(s1.0 =~= stack1);
    assert(s1.1 == empty);
    lemma_siblings(stack1, empty, tag, raw, len, texts);
    let v = JsonSpec::Array(spec_trimmed_strings(texts));
    let inner = spec_put(empty, tag, v);
    assert(inner == seq![(tag, v)]);
    crate::json::lemma_put_keeps_other_keys(empty, tag, v, "$text"@);
    assert(spec_get(inner, "$text"@) is None);
    let s3 = spec_step((stack1, inner), end[0]);
    lemma_fold_one((stack1, inner), end[0]);
    assert(spec_fold((stack1, inner), end) == s3);
    assert(stack1.last() == (root, empty, false));
    assert(s3.1 == spec_put(empty, root, JsonSpec::Object(inner)));
}

} // verus!
