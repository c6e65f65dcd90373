//! Entries kept by key in key order, as a `BTreeMap<String, _>` keeps them.
use vstd::prelude::*;

use crate::json::key_lt;
use crate::text::{chars_of, chars_eq, str_eq, views};
use crate::json::key_less;

verus! {

/// The keys (by their text) and values of the entries.
pub open spec fn keyed_view<V>(entries: Seq<(String, V)>) -> Seq<(Seq<char>, V)> {
    entries.map_values(|e: (String, V)| (e.0@, e.1))
}

/// The entries with `(key, value)` put in: replacing the first entry with
/// that key, or else inserted before the first entry with a greater key (in
/// sorted entries, this is inserting into a map).
pub open spec fn spec_put_keyed<V>(entries: Seq<(Seq<char>, V)>, key: Seq<char>, value: V) -> Seq<(Seq<char>, V)>
    decreases entries.len(),
{
    if entries.len() == 0 {
        seq![(key, value)]
    } else if entries[0].0 == key {
        seq![(key, value)] + entries.drop_first()
    } else if key_lt(key, entries[0].0) {
        seq![(key, value)] + entries
    } else {
        seq![entries[0]] + spec_put_keyed(entries.drop_first(), key, value)
    }
}

/// The value of the first entry with the key, if any.
pub open spec fn spec_lookup<V>(entries: Seq<(Seq<char>, V)>, key: Seq<char>) -> Option<V>
    decreases entries.len(),
{
    if entries.len() == 0 {
        None
    } else if entries[0].0 == key {
        Some(entries[0].1)
    } else {
        spec_lookup(entries.drop_first(), key)
    }
}

/// Putting an entry in makes its key find its value.
pub proof fn lemma_put_then_lookup<V>(entries: Seq<(Seq<char>, V)>, key: Seq<char>, value: V)
    ensures
        spec_lookup(spec_put_keyed(entries, key, value), key) == Some(value),
    decreases entries.len(),
{
    if entries.len() > 0 && entries[0].0 != key && !key_lt(key, entries[0].0) {
        lemma_put_then_lookup(entries.drop_first(), key, value);
        let r = seq![entries[0]] + spec_put_keyed(entries.drop_first(), key, value);
        assert(r[0] == entries[0]);
        assert(r.drop_first() =~= spec_put_keyed(entries.drop_first(), key, value));
    }
}

/// Putting an entry in leaves what other keys find unchanged.
pub proof fn lemma_put_keeps_others<V>(entries: Seq<(Seq<char>, V)>, key: Seq<char>, value: V, other: Seq<char>)
    requires
        other != key,
    ensures
        spec_lookup(spec_put_keyed(entries, key, value), other) == spec_lookup(entries, other),
    decreases entries.len(),
{
    if entries.len() > 0 {
        if entries[0].0 == key {
            let r = seq![(key, value)] + entries.drop_first();
            assert(r[0] == (key, value));
            assert(r.drop_first() =~= entries.drop_first());
            assert(spec_put_keyed(entries, key, value) == r);
            assert(spec_lookup(r, other) == spec_lookup(r.drop_first(), other));
        } else if key_lt(key, entries[0].0) {
            let r = seq![(key, value)] + entries;
            assert(r[0] == (key, value));
            assert(r.drop_first() =~= entries);
            assert(spec_put_keyed(entries, key, value) == r);
            assert(spec_lookup(r, other) == spec_lookup(r.drop_first(), other));
        } else {
            lemma_put_keeps_others(entries.drop_first(), key, value, other);
            let r = seq![entries[0]] + spec_put_keyed(entries.drop_first(), key, value);
            assert(r[0] == entries[0]);
            assert(r.drop_first() =~= spec_put_keyed(entries.drop_first(), key, value));
            assert(spec_put_keyed(entries, key, value) == r);
            if entries[0].0 != other {
                assert(spec_lookup(r, other) == spec_lookup(r.drop_first(), other));
            }
        }
    } else {
        let r = seq![(key, value)];
        assert(r[0] == (key, value));
        assert(r.drop_first() =~= Seq::<(Seq<char>, V)>::empty());
        assert(spec_put_keyed(entries, key, value) == r);
        assert(spec_lookup(r, other) == spec_lookup(r.drop_first(), other));
    }
}

/// Puts `(key, value)` into entries kept by key.
pub fn put_keyed<V>(entries: &mut Vec<(String, V)>, key: String, value: V)
    ensures
        keyed_view(final(entries)@) == spec_put_keyed(keyed_view(old(entries)@), key@, value),
{
    let ghost d = keyed_view(entries@);
    let mut i: usize = 0;
    assert(d.skip(0) =~= d);
    assert(d.take(0) + spec_put_keyed(d.skip(0), key@, value) =~= spec_put_keyed(d, key@, value));
    loop
        invariant
            i <= entries.len(),
            entries@ == old(entries)@,
            d == keyed_view(entries@),
            d.len() == entries@.len(),
            d.take(i as int) + spec_put_keyed(d.skip(i as int), key@, value) == spec_put_keyed(d, key@, value),
        decreases entries.len() - i,
    {
        let ghost rest = d.skip(i as int);
        if i == entries.len() {
            entries.push((key, value));
            proof {
                assert(rest.len() == 0);
                assert(keyed_view(entries@) =~= d.take(i as int) + spec_put_keyed(rest, key@, value));
            }
            return;
        }
        assert(rest[0] == d[i as int]);
        let ck = chars_of(entries[i].0.as_str());
        let kk = chars_of(key.as_str());
        if chars_eq(&ck, &kk) {
            let ghost before = entries@;
            entries.remove(i);
            entries.insert(i, (key, value));
            proof {
                assert(rest.drop_first() =~= d.skip(i + 1));
                assert forall|j: int| 0 <= j < entries@.len() implies #[trigger] keyed_view(entries@)[j]
                    == (d.take(i as int) + spec_put_keyed(rest, key@, value))[j] by {
                    if j > i {
                        assert(d.skip(i + 1)[j - i - 1] == d[j]);
                    }
                }
                assert(keyed_view(entries@) =~= d.take(i as int) + spec_put_keyed(rest, key@, value));
            }
            return;
        }
        if key_less(key.as_str(), entries[i].0.as_str()) {
            let ghost before = entries@;
            entries.insert(i, (key, value));
            proof {
                before.insert_ensures(i as int, entries@[i as int]);
                assert forall|j: int| 0 <= j < entries@.len() implies #[trigger] keyed_view(entries@)[j]
                    == (d.take(i as int) + spec_put_keyed(rest, key@, value))[j] by {
                    if j > i {
                        assert(entries@[j] == before[j - 1]);
                        assert(rest[j - i - 1] == d[j - 1]);
                    }
                }
                assert(keyed_view(entries@) =~= d.take(i as int) + spec_put_keyed(rest, key@, value));
            }
            return;
        }
        assert(rest.drop_first() =~= d.skip(i + 1));
        assert(d.take(i + 1) =~= d.take(i as int).push(d[i as int]));
        assert(d.take(i as int) + spec_put_keyed(rest, key@, value) =~= d.take(i + 1) + spec_put_keyed(
            d.skip(i + 1),
            key@,
            value,
        ));
        i = i + 1;
    }
}


/// Finds the first entry with the key.
pub fn find_keyed<V>(entries: &Vec<(String, V)>, key: &str) -> (r: Option<usize>)
    ensures
        r matches Some(i) ==> i < entries@.len() && entries@[i as int].0@ == key@ && spec_lookup(
            keyed_view(entries@),
            key@,
        ) == Some(entries@[i as int].1),
        r is None ==> spec_lookup(keyed_view(entries@), key@) is None,
{
    let ghost d = keyed_view(entries@);
    let mut i: usize = 0;
    assert(d.skip(0) =~= d);
    while i < entries.len()
        invariant
            i <= entries.len(),
            d == keyed_view(entries@),
            d.len() == entries@.len(),
            spec_lookup(d, key@) == spec_lookup(d.skip(i as int), key@),
        decreases entries.len() - i,
    {
        assert(d.skip(i as int)[0] == d[i as int]);
        if str_eq(entries[i].0.as_str(), key) {
            return Some(i);
        }
        assert(d.skip(i as int).drop_first() =~= d.skip(i + 1));
        i = i + 1;
    }
    None
}

/// The keys of the entries, in order.
pub fn keys_of<V>(entries: &Vec<(String, V)>) -> (r: Vec<String>)
    ensures
        views(r@) == keyed_view(entries@).map_values(|e: (Seq<char>, V)| e.0),
{
    let mut out: Vec<String> = Vec::new();
    let mut i: usize = 0;
    while i < entries.len()
        invariant
            i <= entries.len(),
            out@.len() == i,
            forall|j: int| 0 <= j < i ==> #[trigger] out@[j]@ == entries@[j].0@,
        decreases entries.len() - i,
    {
        out.push(entries[i].0.clone());
        i = i + 1;
    }
    assert(views(out@) =~= keyed_view(entries@).map_values(|e: (Seq<char>, V)| e.0));
    out
}

// ---------------------------------------------------------------------------
// Key order
// ---------------------------------------------------------------------------

/// No key comes before itself.
pub proof fn lemma_key_lt_irreflexive(a: Seq<char>)
    ensures
        !key_lt(a, a),
    decreases a.len(),
{
    if a.len() > 0 {
        lemma_key_lt_irreflexive(a.drop_first());
    }
}

/// The order of keys is transitive.
pub proof fn lemma_key_lt_transitive(a: Seq<char>, b: Seq<char>, c: Seq<char>)
    requires
        key_lt(a, b),
        key_lt(b, c),
    ensures
        key_lt(a, c),
    decreases a.len(),
{
    if a.len() > 0 && b.len() > 0 && c.len() > 0 && a[0] == b[0] && b[0] == c[0] {
        lemma_key_lt_transitive(a.drop_first(), b.drop_first(), c.drop_first());
    }
}

/// Of two different keys, one comes before the other.
pub proof fn lemma_key_lt_total(a: Seq<char>, b: Seq<char>)
    requires
        a != b,
    ensures
        key_lt(a, b) || key_lt(b, a),
    decreases a.len(),
{
    if a.len() > 0 && b.len() > 0 && a[0] == b[0] {
        if a.drop_first() == b.drop_first() {
            assert(a =~= seq![a[0]] + a.drop_first());
            assert(b =~= seq![b[0]] + b.drop_first());
        }
        lemma_key_lt_total(a.drop_first(), b.drop_first());
    } else if a.len() == 0 && b.len() == 0 {
        assert(a =~= b);
    }
}

/// The keys come in strictly increasing order (each key once).
pub open spec fn keys_sorted<V>(entries: Seq<(Seq<char>, V)>) -> bool {
    forall|i: int, j: int| 0 <= i < j < entries.len() ==> key_lt(#[trigger] entries[i].0, #[trigger] entries[j].0)
}

/// Every key after a put is the key put or a key that was there.
pub proof fn lemma_put_keys<V>(entries: Seq<(Seq<char>, V)>, key: Seq<char>, value: V)
    ensures
        forall|i: int|
            0 <= i < spec_put_keyed(entries, key, value).len() ==> #[trigger] spec_put_keyed(entries, key, value)[i].0
                == key || exists|j: int| 0 <= j < entries.len() && entries[j].0 == spec_put_keyed(entries, key, value)[i].0,
    decreases entries.len(),
{
    let r = spec_put_keyed(entries, key, value);
    if entries.len() > 0 {
        if entries[0].0 == key {
            assert forall|i: int| 0 <= i < r.len() implies #[trigger] r[i].0 == key || exists|j: int|
                0 <= j < entries.len() && entries[j].0 == r[i].0 by {
                if i > 0 {
                    assert(entries[i].0 == r[i].0);
                }
            }
        } else if key_lt(key, entries[0].0) {
            assert forall|i: int| 0 <= i < r.len() implies #[trigger] r[i].0 == key || exists|j: int|
                0 <= j < entries.len() && entries[j].0 == r[i].0 by {
                if i > 0 {
                    assert(entries[i - 1].0 == r[i].0);
                }
            }
        } else {
            let rest = entries.drop_first();
            lemma_put_keys(rest, key, value);
            let pr = spec_put_keyed(rest, key, value);
            assert forall|i: int| 0 <= i < r.len() implies #[trigger] r[i].0 == key || exists|j: int|
                0 <= j < entries.len() && entries[j].0 == r[i].0 by {
                if i == 0 {
                    assert(entries[0].0 == r[0].0);
                } else {
                    assert(r[i] == pr[i - 1]);
                    if pr[i - 1].0 != key {
                        let j = choose|j: int| 0 <= j < rest.len() && rest[j].0 == pr[i - 1].0;
                        assert(entries[j + 1].0 == r[i].0);
                    }
                }
            }
        }
    }
}

/// Putting an entry into entries kept in key order keeps them in key order.
pub proof fn lemma_put_keeps_sorted<V>(entries: Seq<(Seq<char>, V)>, key: Seq<char>, value: V)
    requires
        keys_sorted(entries),
    ensures
        keys_sorted(spec_put_keyed(entries, key, value)),
    decreases entries.len(),
{
    let r = spec_put_keyed(entries, key, value);
    if entries.len() == 0 {
    } else if entries[0].0 == key {
        assert forall|i: int, j: int| 0 <= i < j < r.len() implies key_lt(#[trigger] r[i].0, #[trigger] r[j].0) by {
            assert(r[j].0 == entries[j].0);
            if i > 0 {
                assert(r[i].0 == entries[i].0);
            }
        }
    } else if key_lt(key, entries[0].0) {
        assert forall|i: int, j: int| 0 <= i < j < r.len() implies key_lt(#[trigger] r[i].0, #[trigger] r[j].0) by {
            assert(r[j].0 == entries[j - 1].0);
            if i > 0 {
                assert(r[i].0 == entries[i - 1].0);
            } else if j > 1 {
                lemma_key_lt_transitive(key, entries[0].0, entries[j - 1].0);
            }
        }
    } else {
        let rest = entries.drop_first();
        assert(keys_sorted(rest)) by {
            assert forall|i: int, j: int| 0 <= i < j < rest.len() implies key_lt(#[trigger] rest[i].0, #[trigger] rest[j].0) by {
                assert(rest[i] == entries[i + 1] && rest[j] == entries[j + 1]);
            }
        }
        lemma_put_keeps_sorted(rest, key, value);
        lemma_put_keys(rest, key, value);
        lemma_key_lt_total(key, entries[0].0);
        let pr = spec_put_keyed(rest, key, value);
        assert forall|i: int, j: int| 0 <= i < j < r.len() implies key_lt(#[trigger] r[i].0, #[trigger] r[j].0) by {
            assert(r[j] == pr[j - 1]);
            if i > 0 {
                assert(r[i] == pr[i - 1]);
            } else {
                assert(r[0] == entries[0]);
                if pr[j - 1].0 != key {
                    let m = choose|m: int| 0 <= m < rest.len() && rest[m].0 == pr[j - 1].0;
                    assert(rest[m] == entries[m + 1]);
                }
            }
        }
    }
}
} // verus!
