//! Character-level text helpers shared by the rest of the library.
//!
//! Strings are handled as sequences of `char`; every helper here states its
//! result over `Seq<char>`.
use vstd::prelude::*;

verus! {

// ---------------------------------------------------------------------------
// Conversions between `str`/`String` and character vectors
// ---------------------------------------------------------------------------

/// The characters of a string, in order.
pub fn chars_of(s: &str) -> (r: Vec<char>)
    ensures
        r@ == s@,
{
    broadcast use vstd::string::axiom_spec_iter, vstd::string::next_postcondition;
    let mut out: Vec<char> = Vec::new();
    let mut iter = s.chars();
    loop
        invariant
            out@ + vstd::std_specs::iter::IteratorSpec::remaining(&iter) == s@,
            vstd::std_specs::iter::IteratorSpec::decrease(&iter) is Some,
        decreases vstd::std_specs::iter::IteratorSpec::decrease(&iter)->Some_0,
    {
        let ghost before = vstd::std_specs::iter::IteratorSpec::remaining(&iter);
        match iter.next() {
            Some(c) => {
                out.push(c);
                assert(out@ + vstd::std_specs::iter::IteratorSpec::remaining(&iter) =~= s@) by {
                    assert(before =~= seq![c] + before.drop_first());
                }
            },
            None => {
                assert(out@ =~= s@);
                return out;
            },
        }
    }
}

/// Collects characters into a `String` with std's `FromIterator<char>` for
/// `String`. The contract claims that the string holds exactly these
/// characters, in order.
#[verifier::external_body]
pub(crate) fn string_of(v: &Vec<char>) -> (r: String)
    ensures
        r@ == v@,
{
    v.iter().collect()
}

/// The text lower-cased as `str::to_lowercase` does it, by Unicode's
/// lower-case mappings.
pub uninterp spec fn spec_lowercase(s: Seq<char>) -> Seq<char>;

/// Lower-cases a text with `str::to_lowercase`. The contract names the
/// result; what each character maps to is Unicode's table, and is not
/// stated.
#[verifier::external_body]
pub(crate) fn lowercase(s: &str) -> (r: String)
    ensures
        r@ == spec_lowercase(s@),
{
    s.to_lowercase()
}

/// Makes an owned `String` from a `str` (`str::to_string`).
pub fn owned(s: &str) -> (r: String)
    ensures
        r@ == s@,
{
    String::from_str(s)
}

/// Concatenates two strings.
pub fn concat(a: &str, b: &str) -> (r: String)
    ensures
        r@ == a@ + b@,
{
    let mut r = String::from_str(a);
    r.append(b);
    r
}

/// Compares two strings for equality, character by character.
pub fn str_eq(a: &str, b: &str) -> (r: bool)
    ensures
        r == (a@ == b@),
{
    let x = chars_of(a);
    let y = chars_of(b);
    chars_eq(&x, &y)
}

/// Compares two character vectors for equality.
pub fn chars_eq(x: &Vec<char>, y: &Vec<char>) -> (r: bool)
    ensures
        r == (x@ == y@),
{
    if x.len() != y.len() {
        return false;
    }
    let mut i: usize = 0;
    while i < x.len()
        invariant
            x.len() == y.len(),
            i <= x.len(),
            forall|j: int| 0 <= j < i ==> x@[j] == y@[j],
        decreases x.len() - i,
    {
        if x[i] != y[i] {
            return false;
        }
        i = i + 1;
    }
    assert(x@ =~= y@);
    true
}

// ---------------------------------------------------------------------------
// Prefix, suffix, containment
// ---------------------------------------------------------------------------

/// `s` ends with `suffix`.
pub open spec fn spec_ends_with(s: Seq<char>, suffix: Seq<char>) -> bool {
    suffix.len() <= s.len() && s.subrange(s.len() - suffix.len(), s.len() as int) == suffix
}

/// `s` starts with `prefix`.
pub open spec fn spec_starts_with(s: Seq<char>, prefix: Seq<char>) -> bool {
    prefix.len() <= s.len() && s.subrange(0, prefix.len() as int) == prefix
}

/// `str::ends_with` for a string suffix.
pub fn ends_with(s: &str, suffix: &str) -> (r: bool)
    ensures
        r == spec_ends_with(s@, suffix@),
{
    let x = chars_of(s);
    let y = chars_of(suffix);
    if y.len() > x.len() {
        return false;
    }
    let off = x.len() - y.len();
    let mut i: usize = 0;
    while i < y.len()
        invariant
            x@ == s@,
            y@ == suffix@,
            off + y.len() == x.len(),
            i <= y.len(),
            forall|j: int| 0 <= j < i ==> x@[off + j] == y@[j],
        decreases y.len() - i,
    {
        if x[off + i] != y[i] {
            assert(x@.subrange(off as int, x@.len() as int)[i as int] != y@[i as int]);
            return false;
        }
        i = i + 1;
    }
    assert(x@.subrange(off as int, x@.len() as int) =~= y@);
    true
}

/// `s` starts with `prefix` at position `at`.
pub open spec fn spec_matches_at(s: Seq<char>, at: int, pat: Seq<char>) -> bool {
    0 <= at && at + pat.len() <= s.len() && s.subrange(at, at + pat.len()) == pat
}

/// Tests whether `pat` occurs in `s` starting at index `at`.
pub fn matches_at(s: &Vec<char>, at: usize, pat: &Vec<char>) -> (r: bool)
    ensures
        r == spec_matches_at(s@, at as int, pat@),
{
    if at > s.len() || pat.len() > s.len() - at {
        return false;
    }
    let mut i: usize = 0;
    while i < pat.len()
        invariant
            at + pat.len() <= s.len(),
            i <= pat.len(),
            forall|j: int| 0 <= j < i ==> s@[at + j] == pat@[j],
        decreases pat.len() - i,
    {
        if s[at + i] != pat[i] {
            assert(s@.subrange(at as int, at + pat.len())[i as int] != pat@[i as int]);
            return false;
        }
        i = i + 1;
    }
    assert(s@.subrange(at as int, at + pat.len()) =~= pat@);
    true
}

/// `c` occurs in `s`.
pub fn contains_char(s: &Vec<char>, c: char) -> (r: bool)
    ensures
        r == s@.contains(c),
{
    let mut i: usize = 0;
    while i < s.len()
        invariant
            i <= s.len(),
            forall|j: int| 0 <= j < i ==> s@[j] != c,
        decreases s.len() - i,
    {
        if s[i] == c {
            return true;
        }
        i = i + 1;
    }
    false
}

// ---------------------------------------------------------------------------
// Replacement
// ---------------------------------------------------------------------------

/// Every non-overlapping occurrence of a non-empty `pat`, found from the left,
/// replaced by `rep` (what `str::replace` does).
pub open spec fn spec_replace_all(s: Seq<char>, pat: Seq<char>, rep: Seq<char>) -> Seq<char>
    decreases s.len(),
{
    if s.len() == 0 || pat.len() == 0 {
        s
    } else if spec_matches_at(s, 0, pat) {
        rep + spec_replace_all(s.skip(pat.len() as int), pat, rep)
    } else {
        seq![s[0]] + spec_replace_all(s.drop_first(), pat, rep)
    }
}

/// Replaces every occurrence of the non-empty `pat` in `s` by `rep`.
pub fn replace_all(s: &str, pat: &str, rep: &str) -> (r: String)
    requires
        pat@.len() > 0,
    ensures
        r@ == spec_replace_all(s@, pat@, rep@),
{
    let x = chars_of(s);
    let p = chars_of(pat);
    let q = chars_of(rep);
    let mut out: Vec<char> = Vec::new();
    let mut i: usize = 0;
    assert(x@.skip(0) =~= x@);
    assert(out@ + spec_replace_all(x@, p@, q@) =~= spec_replace_all(x@, p@, q@));
    while i < x.len()
        invariant
            i <= x.len(),
            p@.len() > 0,
            out@ + spec_replace_all(x@.skip(i as int), p@, q@) == spec_replace_all(x@, p@, q@),
        decreases x.len() - i,
    {
        let ghost rest = x@.skip(i as int);
        if matches_at(&x, i, &p) {
            assert(spec_matches_at(rest, 0, p@)) by {
                assert(rest.subrange(0, p@.len() as int) =~= x@.subrange(i as int, i + p@.len()));
            }
            assert(rest.skip(p@.len() as int) =~= x@.skip(i + p@.len()));
            let mut k: usize = 0;
            let ghost before = out@;
            while k < q.len()
                invariant
                    k <= q.len(),
                    out@ == before + q@.take(k as int),
                decreases q.len() - k,
            {
                out.push(q[k]);
                k = k + 1;
                assert(out@ =~= before + q@.take(k as int));
            }
            assert(q@.take(q@.len() as int) =~= q@);
            assert(out@ + spec_replace_all(x@.skip(i + p@.len()), p@, q@) =~= before + (q@
                + spec_replace_all(rest.skip(p@.len() as int), p@, q@)));
            i = i + p.len();
        } else {
            assert(!spec_matches_at(rest, 0, p@)) by {
                if spec_matches_at(rest, 0, p@) {
                    assert(rest.subrange(0, p@.len() as int) =~= x@.subrange(i as int, i + p@.len()));
                }
            }
            assert(rest.drop_first() =~= x@.skip(i + 1));
            let ghost before = out@;
            out.push(x[i]);
            assert(out@ + spec_replace_all(x@.skip(i + 1), p@, q@) =~= before + (seq![rest[0]]
                + spec_replace_all(rest.drop_first(), p@, q@)));
            i = i + 1;
        }
    }
    assert(x@.skip(i as int) =~= Seq::<char>::empty());
    assert(out@ + Seq::<char>::empty() =~= out@);
    string_of(&out)
}

// ---------------------------------------------------------------------------
// Splitting and joining
// ---------------------------------------------------------------------------

/// The pieces of `s` between occurrences of `sep` (what `str::split` with a
/// character separator yields): always at least one piece.
pub open spec fn spec_split(s: Seq<char>, sep: char) -> Seq<Seq<char>>
    decreases s.len(),
{
    if s.len() == 0 {
        seq![Seq::<char>::empty()]
    } else {
        let rest = spec_split(s.drop_first(), sep);
        if s[0] == sep {
            seq![Seq::<char>::empty()] + rest
        } else {
            rest.update(0, seq![s[0]] + rest[0])
        }
    }
}

/// A split always yields at least one piece.
pub proof fn lemma_split_nonempty(s: Seq<char>, sep: char)
    ensures
        spec_split(s, sep).len() >= 1,
    decreases s.len(),
{
    if s.len() > 0 {
        lemma_split_nonempty(s.drop_first(), sep);
    }
}

/// Splits `s` at every occurrence of `sep`.
pub fn split_char(s: &str, sep: char) -> (r: Vec<String>)
    ensures
        r@.len() == spec_split(s@, sep).len(),
        forall|i: int| 0 <= i < r@.len() ==> #[trigger] r@[i]@ == spec_split(s@, sep)[i],
{
    let x = chars_of(s);
    let mut pieces: Vec<Vec<char>> = Vec::new();
    pieces.push(Vec::new());
    let mut i: usize = x.len();
    assert(x@.skip(x@.len() as int) =~= Seq::<char>::empty());
    while i > 0
        invariant
            i <= x.len(),
            pieces@.len() == spec_split(x@.skip(i as int), sep).len(),
            forall|j: int| 0 <= j < pieces@.len() ==> #[trigger] pieces@[j]@ == spec_split(x@.skip(i as int), sep)[j],
        decreases i,
    {
        let ghost tail = x@.skip(i as int);
        let ghost cur = x@.skip(i - 1);
        assert(cur.drop_first() =~= tail);
        assert(cur[0] == x@[i - 1]);
        proof { lemma_split_nonempty(tail, sep); }
        let c = x[i - 1];
        if c == sep {
            pieces.insert(0, Vec::new());
            assert forall|j: int| 0 <= j < pieces@.len() implies #[trigger] pieces@[j]@ == spec_split(cur, sep)[j] by {
                if j > 0 {
                    assert(pieces@[j] == pieces@[j - 1 + 1]);
                }
            }
        } else {
            let mut first = pieces.remove(0);
            first.insert(0, c);
            pieces.insert(0, first);
            assert forall|j: int| 0 <= j < pieces@.len() implies #[trigger] pieces@[j]@ == spec_split(cur, sep)[j] by {
                if j == 0 {
                    assert(pieces@[0]@ =~= seq![c] + spec_split(tail, sep)[0]);
                }
            }
        }
        i = i - 1;
    }
    assert(x@.skip(0) =~= x@);
    let mut out: Vec<String> = Vec::new();
    let mut k: usize = 0;
    while k < pieces.len()
        invariant
            k <= pieces.len(),
            out@.len() == k,
            pieces@.len() == spec_split(x@, sep).len(),
            forall|j: int| 0 <= j < pieces@.len() ==> #[trigger] pieces@[j]@ == spec_split(x@, sep)[j],
            forall|j: int| 0 <= j < k ==> #[trigger] out@[j]@ == spec_split(x@, sep)[j],
        decreases pieces.len() - k,
    {
        let piece = string_of(&pieces[k]);
        out.push(piece);
        k = k + 1;
    }
    out
}

/// The pieces joined with `sep` between consecutive pieces.
pub open spec fn spec_join(parts: Seq<Seq<char>>, sep: Seq<char>) -> Seq<char>
    decreases parts.len(),
{
    if parts.len() == 0 {
        Seq::<char>::empty()
    } else if parts.len() == 1 {
        parts[0]
    } else {
        spec_join(parts.drop_last(), sep) + sep + parts.last()
    }
}

/// The views of a vector of strings.
pub open spec fn views(v: Seq<String>) -> Seq<Seq<char>> {
    v.map_values(|s: String| s@)
}

/// Joins the strings with `sep` between consecutive ones.
pub fn join(parts: &Vec<String>, sep: &str) -> (r: String)
    ensures
        r@ == spec_join(views(parts@), sep@),
{
    let mut out = String::new();
    let mut i: usize = 0;
    while i < parts.len()
        invariant
            i <= parts.len(),
            out@ == spec_join(views(parts@).take(i as int), sep@),
        decreases parts.len() - i,
    {
        let ghost pre = views(parts@).take(i as int);
        let ghost next = views(parts@).take(i + 1);
        assert(next.drop_last() =~= pre);
        if i > 0 {
            out.append(sep);
        }
        out.append(parts[i].as_str());
        if i == 0 {
            assert(out@ =~= next[0]);
        }
        i = i + 1;
    }
    assert(views(parts@).take(parts@.len() as int) =~= views(parts@));
    out
}

// ---------------------------------------------------------------------------
// Whitespace
// ---------------------------------------------------------------------------

/// The characters with the Unicode `White_Space` property (what
/// `char::is_whitespace` tests).
pub open spec fn spec_is_whitespace(c: char) -> bool {
    ||| ('\u{9}' <= c && c <= '\u{d}')
    ||| c == ' '
    ||| c == '\u{85}'
    ||| c == '\u{a0}'
    ||| c == '\u{1680}'
    ||| ('\u{2000}' <= c && c <= '\u{200a}')
    ||| c == '\u{2028}'
    ||| c == '\u{2029}'
    ||| c == '\u{202f}'
    ||| c == '\u{205f}'
    ||| c == '\u{3000}'
}

/// Tests for a Unicode whitespace character.
pub fn is_whitespace(c: char) -> (r: bool)
    ensures
        r == spec_is_whitespace(c),
{
    ('\u{9}' <= c && c <= '\u{d}') || c == ' ' || c == '\u{85}' || c == '\u{a0}' || c == '\u{1680}'
        || ('\u{2000}' <= c && c <= '\u{200a}') || c == '\u{2028}' || c == '\u{2029}' || c
        == '\u{202f}' || c == '\u{205f}' || c == '\u{3000}'
}

/// `s` without leading whitespace.
pub open spec fn spec_trim_start(s: Seq<char>) -> Seq<char>
    decreases s.len(),
{
    if s.len() > 0 && spec_is_whitespace(s[0]) {
        spec_trim_start(s.drop_first())
    } else {
        s
    }
}

/// `s` without trailing whitespace.
pub open spec fn spec_trim_end(s: Seq<char>) -> Seq<char>
    decreases s.len(),
{
    if s.len() > 0 && spec_is_whitespace(s.last()) {
        spec_trim_end(s.drop_last())
    } else {
        s
    }
}

/// `s` without leading and trailing whitespace (what `str::trim` yields).
pub open spec fn spec_trim(s: Seq<char>) -> Seq<char> {
    spec_trim_end(spec_trim_start(s))
}

/// Removes leading and trailing whitespace.
pub fn trim(s: &str) -> (r: String)
    ensures
        r@ == spec_trim(s@),
{
    let x = chars_of(s);
    let mut a: usize = 0;
    assert(x@.skip(0) =~= x@);
    while a < x.len() && is_whitespace(x[a])
        invariant
            a <= x.len(),
            spec_trim_start(x@.skip(a as int)) == spec_trim_start(x@),
        decreases x.len() - a,
    {
        assert(x@.skip(a as int).drop_first() =~= x@.skip(a + 1));
        a = a + 1;
    }
    let ghost st = x@.skip(a as int);
    assert(spec_trim_start(x@) == st);
    let mut b: usize = x.len();
    assert(x@.subrange(a as int, x@.len() as int) =~= st);
    while b > a && is_whitespace(x[b - 1])
        invariant
            a <= b <= x.len(),
            spec_trim_end(x@.subrange(a as int, b as int)) == spec_trim_end(st),
        decreases b,
    {
        assert(x@.subrange(a as int, b as int).drop_last() =~= x@.subrange(a as int, b - 1));
        b = b - 1;
    }
    let mut out: Vec<char> = Vec::new();
    let mut k: usize = a;
    while k < b
        invariant
            a <= k <= b <= x.len(),
            out@ == x@.subrange(a as int, k as int),
        decreases b - k,
    {
        out.push(x[k]);
        k = k + 1;
        assert(out@ =~= x@.subrange(a as int, k as int));
    }
    string_of(&out)
}

// ---------------------------------------------------------------------------
// Decimal numerals
// ---------------------------------------------------------------------------

/// The ASCII digit for `d < 10`.
pub open spec fn spec_digit(d: nat) -> char {
    if d == 0 {
        '0'
    } else if d == 1 {
        '1'
    } else if d == 2 {
        '2'
    } else if d == 3 {
        '3'
    } else if d == 4 {
        '4'
    } else if d == 5 {
        '5'
    } else if d == 6 {
        '6'
    } else if d == 7 {
        '7'
    } else if d == 8 {
        '8'
    } else {
        '9'
    }
}

/// The decimal numeral of `n`, without sign or leading zeros.
pub open spec fn spec_decimal(n: nat) -> Seq<char>
    decreases n,
{
    if n < 10 {
        seq![spec_digit(n)]
    } else {
        spec_decimal(n / 10).push(spec_digit(n % 10))
    }
}

/// The decimal numeral of a signed integer (what `Display` writes for it).
pub open spec fn spec_decimal_int(n: int) -> Seq<char> {
    if n < 0 {
        seq!['-'] + spec_decimal((-n) as nat)
    } else {
        spec_decimal(n as nat)
    }
}

fn digit(d: u64) -> (c: char)
    requires
        d < 10,
    ensures
        c == spec_digit(d as nat),
{
    if d == 0 {
        '0'
    } else if d == 1 {
        '1'
    } else if d == 2 {
        '2'
    } else if d == 3 {
        '3'
    } else if d == 4 {
        '4'
    } else if d == 5 {
        '5'
    } else if d == 6 {
        '6'
    } else if d == 7 {
        '7'
    } else if d == 8 {
        '8'
    } else {
        '9'
    }
}

fn decimal_chars(n: u64) -> (r: Vec<char>)
    ensures
        r@ == spec_decimal(n as nat),
    decreases n,
{
    if n < 10 {
        let mut v = Vec::new();
        v.push(digit(n));
        v
    } else {
        let mut v = decimal_chars(n / 10);
        v.push(digit(n % 10));
        v
    }
}

/// Formats an unsigned integer in decimal.
pub fn decimal(n: u64) -> (r: String)
    ensures
        r@ == spec_decimal(n as nat),
{
    let v = decimal_chars(n);
    string_of(&v)
}

/// Formats a signed integer in decimal.
pub fn decimal_i64(n: i64) -> (r: String)
    ensures
        r@ == spec_decimal_int(n as int),
{
    if n < 0 {
        let m: u64 = if n == i64::MIN {
            9223372036854775808u64
        } else {
            (-n) as u64
        };
        let mut v: Vec<char> = Vec::new();
        v.push('-');
        let d = decimal_chars(m);
        let mut i: usize = 0;
        while i < d.len()
            invariant
                i <= d.len(),
                v@ == seq!['-'] + d@.take(i as int),
            decreases d.len() - i,
        {
            v.push(d[i]);
            i = i + 1;
            assert(v@ =~= seq!['-'] + d@.take(i as int));
        }
        assert(d@.take(d@.len() as int) =~= d@);
        string_of(&v)
    } else {
        decimal(n as u64)
    }
}

/// The value of an ASCII digit.
pub open spec fn spec_digit_value(c: char) -> int {
    (c as int) - ('0' as int)
}

/// `c` is an ASCII digit.
pub open spec fn spec_is_digit(c: char) -> bool {
    '0' <= c && c <= '9'
}

/// The number written by the digits `s` (all of which are ASCII digits).
pub open spec fn spec_digits_value(s: Seq<char>) -> int
    decreases s.len(),
{
    if s.len() == 0 {
        0
    } else {
        spec_digits_value(s.drop_last()) * 10 + spec_digit_value(s.last())
    }
}

/// The digits of `s` after an optional leading `+`.
pub open spec fn spec_unsigned_digits(s: Seq<char>) -> Seq<char> {
    if s.len() > 0 && s[0] == '+' {
        s.drop_first()
    } else {
        s
    }
}

/// What `str::parse::<usize>` yields: an optional `+`, then one or more ASCII
/// digits whose value fits in `usize`.
pub open spec fn spec_parse_usize(s: Seq<char>) -> Option<usize> {
    let d = spec_unsigned_digits(s);
    if d.len() > 0 && (forall|i: int| 0 <= i < d.len() ==> spec_is_digit(#[trigger] d[i]))
        && spec_digits_value(d) <= usize::MAX {
        Some(spec_digits_value(d) as usize)
    } else {
        None
    }
}

proof fn lemma_digits_value_nonneg(s: Seq<char>)
    requires
        forall|i: int| 0 <= i < s.len() ==> spec_is_digit(#[trigger] s[i]),
    ensures
        spec_digits_value(s) >= 0,
    decreases s.len(),
{
    if s.len() > 0 {
        lemma_digits_value_nonneg(s.drop_last());
    }
}

proof fn lemma_digits_value_monotone(s: Seq<char>, k: int)
    requires
        0 <= k <= s.len(),
        forall|i: int| 0 <= i < s.len() ==> spec_is_digit(#[trigger] s[i]),
    ensures
        spec_digits_value(s.take(k)) <= spec_digits_value(s),
    decreases s.len(),
{
    if k < s.len() {
        assert(s.drop_last().take(k) =~= s.take(k));
        lemma_digits_value_monotone(s.drop_last(), k);
        lemma_digits_value_nonneg(s.drop_last());
    } else {
        assert(s.take(k) =~= s);
    }
}

/// Parses a decimal `usize`, as `str::parse::<usize>` does.
pub fn parse_usize(s: &str) -> (r: Option<usize>)
    ensures
        r == spec_parse_usize(s@),
{
    let x = chars_of(s);
    let start: usize = if x.len() > 0 && x[0] == '+' {
        1
    } else {
        0
    };
    let ghost d = spec_unsigned_digits(x@);
    assert(d =~= x@.skip(start as int));
    if start >= x.len() {
        return None;
    }
    let mut i: usize = start;
    let mut acc: usize = 0;
    while i < x.len()
        invariant
            start <= i <= x.len(),
            x@ == s@,
            d == spec_unsigned_digits(s@),
            d == x@.skip(start as int),
            forall|j: int| 0 <= j < i - start ==> spec_is_digit(#[trigger] d[j]),
            acc as int == spec_digits_value(d.take(i - start)),
        decreases x.len() - i,
    {
        let c = x[i];
        if !('0' <= c && c <= '9') {
            assert(!spec_is_digit(d[i - start]));
            return None;
        }
        let dv: usize = (c as u32 - '0' as u32) as usize;
        assert(d.take(i - start + 1).drop_last() =~= d.take(i - start));
        assert(spec_is_digit(d[i - start]));
        assert(d.take(i - start + 1).last() == c);
        assert(spec_digit_value(c) == dv as int);
        if acc > (usize::MAX - dv) / 10 {
            proof {
                let k = i - start;
                assert(spec_digits_value(d.take(k + 1)) == acc * 10 + dv);
                assert(acc * 10 + dv > usize::MAX) by (nonlinear_arith)
                    requires acc > (usize::MAX - dv) / 10, dv <= 9;
                if forall|j: int| 0 <= j < d.len() ==> spec_is_digit(#[trigger] d[j]) {
                    lemma_digits_value_monotone(d, k + 1);
                }
            }
            return None;
        }
        acc = acc * 10 + dv;
        i = i + 1;
    }
    assert(d.take(i - start) =~= d);
    Some(acc)
}

// ---------------------------------------------------------------------------
// Lexicographic order on sequences of integers
// ---------------------------------------------------------------------------

/// The integers of a vector of `i64`.
pub open spec fn ints(v: Seq<i64>) -> Seq<int> {
    v.map_values(|x: i64| x as int)
}

/// `a` comes no later than `b` in lexicographic order.
pub open spec fn lex_le(a: Seq<int>, b: Seq<int>) -> bool
    decreases a.len(),
{
    if a.len() == 0 {
        true
    } else if b.len() == 0 {
        false
    } else if a[0] < b[0] {
        true
    } else if a[0] > b[0] {
        false
    } else {
        lex_le(a.drop_first(), b.drop_first())
    }
}

/// Lexicographic order is reflexive.
pub proof fn lemma_lex_refl(a: Seq<int>)
    ensures
        lex_le(a, a),
    decreases a.len(),
{
    if a.len() > 0 {
        lemma_lex_refl(a.drop_first());
    }
}

/// Lexicographic order is total.
pub proof fn lemma_lex_total(a: Seq<int>, b: Seq<int>)
    ensures
        lex_le(a, b) || lex_le(b, a),
    decreases a.len(),
{
    if a.len() > 0 && b.len() > 0 && a[0] == b[0] {
        lemma_lex_total(a.drop_first(), b.drop_first());
    }
}

/// Lexicographic order is antisymmetric.
pub proof fn lemma_lex_antisym(a: Seq<int>, b: Seq<int>)
    requires
        lex_le(a, b),
        lex_le(b, a),
    ensures
        a == b,
    decreases a.len(),
{
    if a.len() > 0 {
        lemma_lex_antisym(a.drop_first(), b.drop_first());
        assert(a =~= seq![a[0]] + a.drop_first());
        assert(b =~= seq![b[0]] + b.drop_first());
    } else {
        assert(b.len() == 0);
        assert(a =~= b);
    }
}

/// Lexicographic order is transitive.
pub proof fn lemma_lex_trans(a: Seq<int>, b: Seq<int>, c: Seq<int>)
    requires
        lex_le(a, b),
        lex_le(b, c),
    ensures
        lex_le(a, c),
    decreases a.len(),
{
    if a.len() > 0 && b.len() > 0 && c.len() > 0 && a[0] == b[0] && b[0] == c[0] {
        lemma_lex_trans(a.drop_first(), b.drop_first(), c.drop_first());
    }
}

/// Compares two integer keys in lexicographic order.
pub fn lex_le_exec(a: &Vec<i64>, b: &Vec<i64>) -> (r: bool)
    ensures
        r == lex_le(ints(a@), ints(b@)),
{
    let ghost sa = ints(a@);
    let ghost sb = ints(b@);
    assert(sa.len() == a@.len() && sb.len() == b@.len());
    assert(sa.skip(0) =~= sa && sb.skip(0) =~= sb);
    let mut i: usize = 0;
    while i < a.len() && i < b.len() && a[i] == b[i]
        invariant
            i <= a.len(),
            i <= b.len(),
            sa.len() == a@.len(),
            sb.len() == b@.len(),
            sa == ints(a@),
            sb == ints(b@),
            lex_le(sa.skip(i as int), sb.skip(i as int)) == lex_le(sa, sb),
        decreases a.len() - i,
    {
        assert(sa.skip(i as int).drop_first() =~= sa.skip(i + 1));
        assert(sb.skip(i as int).drop_first() =~= sb.skip(i + 1));
        i = i + 1;
    }
    let ghost ta = sa.skip(i as int);
    let ghost tb = sb.skip(i as int);
    if i == a.len() {
        assert(ta.len() == 0);
        true
    } else if i == b.len() {
        assert(tb.len() == 0 && ta.len() > 0);
        false
    } else {
        assert(ta[0] == a@[i as int] as int && tb[0] == b@[i as int] as int);
        a[i] < b[i]
    }
}


// ---------------------------------------------------------------------------
// Lengths and membership
// ---------------------------------------------------------------------------

/// The length in bytes of the UTF-8 encoding of a text (what `str::len` gives).
pub open spec fn spec_byte_len(s: Seq<char>) -> usize {
    vstd::utf8::encode_utf8(s).len() as usize
}

/// The length in bytes of the UTF-8 encoding of a text.
pub fn byte_len(s: &str) -> (r: usize)
    ensures
        r == spec_byte_len(s@),
{
    s.len()
}

/// Whether one of the strings equals `s`.
pub fn contains_str(v: &Vec<String>, s: &str) -> (r: bool)
    ensures
        r == views(v@).contains(s@),
{
    let mut i: usize = 0;
    while i < v.len()
        invariant
            i <= v.len(),
            forall|j: int| 0 <= j < i ==> v@[j]@ != s@,
        decreases v.len() - i,
    {
        if str_eq(v[i].as_str(), s) {
            assert(views(v@)[i as int] == s@);
            return true;
        }
        i = i + 1;
    }
    assert forall|j: int| 0 <= j < views(v@).len() implies views(v@)[j] != s@ by {
        assert(views(v@)[j] == v@[j]@);
    }
    false
}

} // verus!
