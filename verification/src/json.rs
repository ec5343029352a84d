//! Shaping a Lua table into a JSON array or object.
//!
//! A table whose keys are exactly the integers `1..=n` becomes an array in
//! key order. A table whose keys are all positive integers, but not exactly
//! `1..=n`, becomes an object keyed by the decimal form of each integer. Any
//! other table becomes an object of its string-keyed entries alone.

use vstd::prelude::*;
use crate::text::{err_with, ok_with, string_of};
use serde_json::Value;

verus! {

/// The kind of a Lua table key, as the JSON conversion reads it.
pub enum TableKey {
    /// A positive integer key (or a float key with a whole positive value).
    Index(u64),
    /// A string key.
    Name(String),
    /// Any other key: zero, a negative number, a boolean, a table, ...
    Other,
}

/// What a table converts to: an array of values, or an object of named
/// values in the order the conversion produced them.
pub enum TableShape<T> {
    Array(Vec<T>),
    Object(Vec<(String, T)>),
}

impl TableKey {
    /// The key kind of a Lua integer key: positive integers index, others
    /// do not.
    pub fn from_integer(i: i64) -> (res: TableKey)
        ensures
            i > 0 ==> res == TableKey::Index(i as u64),
            i <= 0 ==> res is Other,
    {
        if i > 0 {
            TableKey::Index(i as u64)
        } else {
            TableKey::Other
        }
    }
}

/// The decimal digit character for `d < 10`.
pub open spec fn digit_char(d: nat) -> char {
    (48 + d) as char
}

/// The decimal representation of `n`, without leading zeros.
pub open spec fn decimal(n: nat) -> Seq<char>
    decreases n,
{
    if n < 10 {
        seq![digit_char(n)]
    } else {
        decimal(n / 10).push(digit_char(n % 10))
    }
}

proof fn lemma_reverse_push(s: Seq<char>, c: char)
    ensures
        s.push(c).reverse() == seq![c] + s.reverse(),
{
    assert(s.push(c).reverse() =~= seq![c] + s.reverse());
}

proof fn lemma_decimal_len(n: nat)
    ensures
        decimal(n).len() >= 1,
        n >= 10 ==> decimal(n).len() >= 2,
    decreases n,
{
    if n >= 10 {
        lemma_decimal_len(n / 10);
    }
}

proof fn lemma_digit_char_injective(a: nat, b: nat)
    requires
        a < 10,
        b < 10,
        a != b,
    ensures
        digit_char(a) != digit_char(b),
{
    assert((48 + a) as char as int == 48 + a);
    assert((48 + b) as char as int == 48 + b);
}

/// Distinct numbers have distinct decimal forms, so a table's distinct
/// integer keys stay distinct as object keys.
pub proof fn lemma_decimal_injective(a: nat, b: nat)
    requires
        a != b,
    ensures
        decimal(a) != decimal(b),
    decreases a + b,
{
    lemma_decimal_len(a);
    lemma_decimal_len(b);
    if a < 10 && b < 10 {
        lemma_digit_char_injective(a, b);
        assert(decimal(a)[0] != decimal(b)[0]);
    } else if a < 10 || b < 10 {
        assert(decimal(a).len() != decimal(b).len());
    } else if a / 10 != b / 10 {
        lemma_decimal_injective(a / 10, b / 10);
        assert(decimal(a).drop_last() =~= decimal(a / 10));
        assert(decimal(b).drop_last() =~= decimal(b / 10));
    } else {
        lemma_digit_char_injective(a % 10, b % 10);
        assert(decimal(a).last() != decimal(b).last());
    }
}

/// Every key is an integer index.
pub open spec fn all_indexed<T>(entries: Seq<(TableKey, T)>) -> bool {
    forall|i: int| 0 <= i < entries.len() ==> #[trigger] entries[i].0 is Index
}

/// The index of an integer key.
pub open spec fn key_index(k: TableKey) -> int {
    match k {
        TableKey::Index(n) => n as int,
        _ => 0,
    }
}

/// The keys are exactly the integers `1..=n`, each once, where `n` is the
/// number of entries.
pub open spec fn dense<T>(entries: Seq<(TableKey, T)>) -> bool {
    &&& all_indexed(entries)
    &&& forall|i: int|
        0 <= i < entries.len() ==> 1 <= #[trigger] key_index(entries[i].0) <= entries.len()
    &&& forall|i: int, j: int|
        0 <= i < entries.len() && 0 <= j < entries.len() && i != j ==> key_index(entries[i].0)
            != key_index(entries[j].0)
}

/// The string-keyed entries, in order.
pub open spec fn named_entries<T>(entries: Seq<(TableKey, T)>) -> Seq<(Seq<char>, T)>
    decreases entries.len(),
{
    if entries.len() == 0 {
        Seq::empty()
    } else {
        let prev = named_entries(entries.drop_last());
        match entries.last().0 {
            TableKey::Name(s) => prev.push((s@, entries.last().1)),
            _ => prev,
        }
    }
}

/// The entries keyed by the decimal form of their integer index, in order.
pub open spec fn numbered_entries<T>(entries: Seq<(TableKey, T)>) -> Seq<(Seq<char>, T)> {
    entries.map_values(|e: (TableKey, T)| (decimal(key_index(e.0) as nat), e.1))
}

/// An object's entries as views.
pub open spec fn pairs_view<T>(pairs: Seq<(String, T)>) -> Seq<(Seq<char>, T)> {
    pairs.map_values(|p: (String, T)| (p.0@, p.1))
}

/// What a table with these entries (in the order the table yields them)
/// converts to.
pub open spec fn shape_of<T>(entries: Seq<(TableKey, T)>, res: TableShape<T>) -> bool {
    if dense(entries) {
        &&& res matches TableShape::Array(vals)
        &&& vals@.len() == entries.len()
        &&& forall|i: int|
            0 <= i < entries.len() ==> vals@[key_index(#[trigger] entries[i].0) - 1]
                == entries[i].1
    } else if all_indexed(entries) {
        res matches TableShape::Object(pairs) && pairs_view(pairs@) == numbered_entries(entries)
    } else {
        res matches TableShape::Object(pairs) && pairs_view(pairs@) == named_entries(entries)
    }
}

/// The decimal representation of `n`.
pub fn decimal_string(n: u64) -> (res: String)
    ensures
        res@ == decimal(n as nat),
{
    let mut rev: Vec<char> = Vec::new();
    let mut m = n;
    let ghost mut high: nat = n as nat;
    // `rev` holds the low digits of `n`, least significant first.
    loop
        invariant_except_break
            m as nat == high,
            decimal(n as nat) == decimal(high) + rev@.reverse(),
        ensures
            decimal(n as nat) == rev@.reverse(),
        decreases m,
    {
        let d = m % 10;
        let c = (48u8 + d as u8) as char;
        proof {
            lemma_reverse_push(rev@, c);
        }
        if m < 10 {
            assert(decimal(high) == seq![c]);
            rev.push(c);
            break;
        }
        proof {
            assert(decimal(high) == decimal(high / 10).push(c));
            assert(decimal(high / 10) + (seq![c] + rev@.reverse()) =~= decimal(high / 10).push(c)
                + rev@.reverse());
            high = high / 10;
        }
        rev.push(c);
        m = m / 10;
    }
    let mut digits: Vec<char> = Vec::new();
    let mut k = rev.len();
    while k > 0
        invariant
            k <= rev.len(),
            digits@ == rev@.subrange(k as int, rev@.len() as int).reverse(),
        decreases k,
    {
        k -= 1;
        digits.push(rev[k]);
        assert(rev@.subrange(k as int, rev@.len() as int).reverse() =~= rev@.subrange(
            k + 1,
            rev@.len() as int,
        ).reverse().push(rev@[k as int]));
    }
    assert(rev@.subrange(0, rev@.len() as int) =~= rev@);
    assert(decimal(n as nat) + Seq::<char>::empty() =~= decimal(n as nat));
    string_of(&digits)
}

/// The number of filled slots.
pub open spec fn count_filled<T>(s: Seq<Option<T>>) -> nat
    decreases s.len(),
{
    if s.len() == 0 {
        0
    } else {
        count_filled(s.drop_last()) + if s.last() is Some {
            1nat
        } else {
            0nat
        }
    }
}

proof fn lemma_count_filled_bound<T>(s: Seq<Option<T>>)
    ensures
        count_filled(s) <= s.len(),
        count_filled(s) == s.len() ==> forall|i: int| 0 <= i < s.len() ==> #[trigger] s[i] is Some,
    decreases s.len(),
{
    if s.len() > 0 {
        lemma_count_filled_bound(s.drop_last());
        if count_filled(s) == s.len() {
            assert forall|i: int| 0 <= i < s.len() implies #[trigger] s[i] is Some by {
                if i < s.len() - 1 {
                    assert(s[i] == s.drop_last()[i]);
                }
            }
        }
    }
}

proof fn lemma_count_filled_update<T>(s: Seq<Option<T>>, i: int, x: T)
    requires
        0 <= i < s.len(),
        s[i] is None,
    ensures
        count_filled(s.update(i, Some(x))) == count_filled(s) + 1,
    decreases s.len(),
{
    let t = s.update(i, Some(x));
    if i == s.len() - 1 {
        assert(t.drop_last() =~= s.drop_last());
    } else {
        assert(t.drop_last() =~= s.drop_last().update(i, Some(x)));
        lemma_count_filled_update(s.drop_last(), i, x);
    }
}

proof fn lemma_named_entries_step<T>(entries: Seq<(TableKey, T)>, k: int)
    requires
        0 <= k < entries.len(),
    ensures
        named_entries(entries.take(k + 1)) == match entries[k].0 {
            TableKey::Name(s) => named_entries(entries.take(k)).push((s@, entries[k].1)),
            _ => named_entries(entries.take(k)),
        },
{
    assert(entries.take(k + 1).drop_last() =~= entries.take(k));
}

/// Whether every key is an integer index.
fn keys_all_indexed<T>(entries: &Vec<(TableKey, T)>) -> (res: bool)
    ensures
        res == all_indexed(entries@),
{
    let mut i: usize = 0;
    while i < entries.len()
        invariant
            i <= entries.len(),
            forall|j: int| 0 <= j < i ==> #[trigger] entries@[j].0 is Index,
        decreases entries.len() - i,
    {
        match &entries[i].0 {
            TableKey::Index(_) => {},
            _ => {
                return false;
            },
        }
        i += 1;
    }
    true
}

/// Whether the (all integer) keys are exactly `1..=n`.
fn keys_dense<T>(entries: &Vec<(TableKey, T)>) -> (res: bool)
    requires
        all_indexed(entries@),
    ensures
        res == dense(entries@),
{
    let n = entries.len();
    let mut seen: Vec<bool> = Vec::new();
    while seen.len() < n
        invariant
            seen.len() <= n,
            forall|p: int| 0 <= p < seen.len() ==> !seen@[p],
        decreases n - seen.len(),
    {
        seen.push(false);
    }
    let mut i: usize = 0;
    while i < n
        invariant
            n == entries.len(),
            all_indexed(entries@),
            i <= n,
            seen.len() == n,
            forall|j: int| 0 <= j < i ==> 1 <= #[trigger] key_index(entries@[j].0) <= n,
            forall|j: int| 0 <= j < i ==> seen@[key_index(#[trigger] entries@[j].0) - 1],
            forall|j1: int, j2: int|
                0 <= j1 < i && 0 <= j2 < i && j1 != j2 ==> key_index(entries@[j1].0)
                    != key_index(entries@[j2].0),
            forall|p: int|
                0 <= p < n && #[trigger] seen@[p] ==> exists|j: int|
                    0 <= j < i && key_index(#[trigger] entries@[j].0) == p + 1,
        decreases n - i,
    {
        assert(entries@[i as int].0 is Index);
        let k = match &entries[i].0 {
            TableKey::Index(k) => *k,
            _ => 0,
        };
        assert(k == key_index(entries@[i as int].0));
        if k < 1 || k > n as u64 {
            return false;
        }
        let p = (k - 1) as usize;
        if seen[p] {
            proof {
                let j = choose|j: int| 0 <= j < i && key_index(#[trigger] entries@[j].0) == p + 1;
                assert(key_index(entries@[j].0) == key_index(entries@[i as int].0));
            }
            return false;
        }
        seen.set(p, true);
        proof {
            assert forall|q: int| 0 <= q < n && #[trigger] seen@[q] implies exists|j: int|
                0 <= j < i + 1 && key_index(#[trigger] entries@[j].0) == q + 1 by {
                if q == p {
                    assert(key_index(entries@[i as int].0) == q + 1);
                } else {
                    let j = choose|j: int| 0 <= j < i && key_index(#[trigger] entries@[j].0) == q + 1;
                    assert(0 <= j < i + 1 && key_index(entries@[j].0) == q + 1);
                }
            }
        }
        i += 1;
    }
    true
}

/// Converts a table, given its entries in the order the table yields them,
/// into a JSON array or object: an array when its keys are exactly `1..=n`,
/// an object keyed by the decimal index when they are all positive integers
/// but not `1..=n`, and otherwise an object of its string-keyed entries alone.
pub fn shape_table<T>(entries: Vec<(TableKey, T)>) -> (res: TableShape<T>)
    ensures
        shape_of(entries@, res),
{
    let ghost orig = entries@;
    let n = entries.len();
    if !keys_all_indexed(&entries) {
        let mut pairs: Vec<(String, T)> = Vec::new();
        for e in it: entries
            invariant
                it.seq() == orig,
                pairs_view(pairs@) == named_entries(orig.take(it.index())),
        {
            proof {
                lemma_named_entries_step(orig, it.index());
            }
            let (key, value) = e;
            match key {
                TableKey::Name(name) => {
                    pairs.push((name, value));
                    proof {
                        assert(pairs_view(pairs@) =~= named_entries(orig.take(it.index() + 1)));
                    }
                },
                _ => {},
            }
        }
        proof {
            assert(orig.take(orig.len() as int) =~= orig);
        }
        return TableShape::Object(pairs);
    }
    if !keys_dense(&entries) {
        let mut pairs: Vec<(String, T)> = Vec::new();
        for e in it: entries
            invariant
                it.seq() == orig,
                all_indexed(orig),
                pairs_view(pairs@) == numbered_entries(orig.take(it.index())),
        {
            let (key, value) = e;
            let k = match key {
                TableKey::Index(k) => k,
                _ => 0,
            };
            proof {
                assert(orig[it.index()].0 is Index);
            }
            let name = decimal_string(k);
            let ghost before = pairs@;
            pairs.push((name, value));
            proof {
                let i = it.index();
                assert(orig.take(i + 1) =~= orig.take(i).push(orig[i]));
                assert(numbered_entries(orig.take(i + 1)) =~= numbered_entries(orig.take(i)).push(
                    (decimal(key_index(orig[i].0) as nat), orig[i].1),
                ));
                assert(pairs@ =~= before.push((name, value)));
                assert(pairs_view(pairs@) =~= pairs_view(before).push((name@, value)));
            }
        }
        proof {
            assert(orig.take(orig.len() as int) =~= orig);
        }
        return TableShape::Object(pairs);
    }
    let mut slots: Vec<Option<T>> = Vec::new();
    while slots.len() < n
        invariant
            slots.len() <= n,
            forall|p: int| 0 <= p < slots.len() ==> slots@[p] is None,
        decreases n - slots.len(),
    {
        slots.push(None);
    }
    proof {
        assert forall|p: int| 0 <= p < slots.len() implies slots@[p] is None by {}
        lemma_count_filled_zero(slots@);
    }
    for e in it: entries
        invariant
            it.seq() == orig,
            n == orig.len(),
            dense(orig),
            slots.len() == n,
            count_filled(slots@) == it.index(),
            forall|j: int|
                0 <= j < it.index() ==> slots@[key_index(#[trigger] orig[j].0) - 1] == Some(
                    orig[j].1,
                ),
            forall|p: int|
                0 <= p < n && #[trigger] slots@[p] is Some ==> exists|j: int|
                    0 <= j < it.index() && key_index(#[trigger] orig[j].0) == p + 1,
    {
        let ghost i = it.index();
        let (key, value) = e;
        let k = match key {
            TableKey::Index(k) => k,
            _ => 0,
        };
        proof {
            assert(orig[i].0 is Index);
            assert(1 <= key_index(orig[i].0) <= n);
        }
        let p = (k - 1) as usize;
        proof {
            if slots@[p as int] is Some {
                let j = choose|j: int| 0 <= j < i && key_index(#[trigger] orig[j].0) == p + 1;
                assert(key_index(orig[j].0) == key_index(orig[i].0));
            }
            lemma_count_filled_update(slots@, p as int, value);
        }
        slots.set(p, Some(value));
        proof {
            assert forall|q: int| 0 <= q < n && #[trigger] slots@[q] is Some implies exists|j: int|
                0 <= j < i + 1 && key_index(#[trigger] orig[j].0) == q + 1 by {
                if q == p {
                    assert(key_index(orig[i].0) == q + 1);
                } else {
                    let j = choose|j: int| 0 <= j < i && key_index(#[trigger] orig[j].0) == q + 1;
                    assert(0 <= j < i + 1 && key_index(orig[j].0) == q + 1);
                }
            }
            assert forall|j: int| 0 <= j < i + 1 implies slots@[key_index(#[trigger] orig[j].0) - 1]
                == Some(orig[j].1) by {
                if j < i {
                    assert(key_index(orig[j].0) != key_index(orig[i].0));
                }
            }
        }
    }
    proof {
        lemma_count_filled_bound(slots@);
    }
    let ghost full = slots@;
    let mut vals: Vec<T> = Vec::new();
    let mut p: usize = 0;
    while p < n
        invariant
            p <= n,
            slots.len() == n,
            full.len() == n,
            forall|q: int| 0 <= q < n ==> #[trigger] full[q] is Some,
            forall|q: int| p <= q < n ==> slots@[q] == full[q],
            vals@.len() == p,
            forall|q: int| 0 <= q < p ==> Some(#[trigger] vals@[q]) == full[q],
        decreases n - p,
    {
        let mut taken: Option<T> = None;
        assert(full[p as int] is Some);
        assert(slots@[p as int] == full[p as int]);
        slots.set_and_swap(p, &mut taken);
        match taken {
            Some(v) => {
                vals.push(v);
            },
            None => {
                assert(false);
                return TableShape::Array(vals);
            },
        }
        p += 1;
    }
    proof {
        assert forall|i: int| 0 <= i < orig.len() implies vals@[key_index(#[trigger] orig[i].0) - 1]
            == orig[i].1 by {
            assert(Some(vals@[key_index(orig[i].0) - 1]) == full[key_index(orig[i].0) - 1]);
        }
    }
    TableShape::Array(vals)
}

/// A table built as a list, its keys `1, 2, ..., n` in order, converts to
/// the array of its values in the same order.
pub proof fn lemma_list_table_is_array<T>(entries: Seq<(TableKey, T)>, res: TableShape<T>)
    requires
        forall|i: int| 0 <= i < entries.len() ==> #[trigger] entries[i].0 is Index,
        forall|i: int| 0 <= i < entries.len() ==> #[trigger] key_index(entries[i].0) == i + 1,
        shape_of(entries, res),
    ensures
        res matches TableShape::Array(vals) && vals@ == entries.map_values(|e: (TableKey, T)| e.1),
{
    assert(dense(entries)) by {
        assert forall|i: int, j: int|
            0 <= i < entries.len() && 0 <= j < entries.len() && i != j implies key_index(entries[i].0)
            != key_index(entries[j].0) by {
            assert(key_index(entries[i].0) == i + 1);
            assert(key_index(entries[j].0) == j + 1);
        }
    }
    if let TableShape::Array(vals) = res {
        assert forall|i: int| 0 <= i < entries.len() implies vals@[i] == entries[i].1 by {
            assert(key_index(entries[i].0) == i + 1);
        }
        assert(vals@ =~= entries.map_values(|e: (TableKey, T)| e.1));
    }
}

/// A table with a string key converts to the object of its string-keyed
/// entries alone, in order.
pub proof fn lemma_named_table_is_object<T>(entries: Seq<(TableKey, T)>, res: TableShape<T>, k: int)
    requires
        0 <= k < entries.len(),
        entries[k].0 is Name,
        shape_of(entries, res),
    ensures
        res matches TableShape::Object(pairs) && pairs_view(pairs@) == named_entries(entries),
{
    assert(!all_indexed(entries));
}

proof fn lemma_count_filled_zero<T>(s: Seq<Option<T>>)
    requires
        forall|p: int| 0 <= p < s.len() ==> s[p] is None,
    ensures
        count_filled(s) == 0,
    decreases s.len(),
{
    if s.len() > 0 {
        lemma_count_filled_zero(s.drop_last());
    }
}

#[verifier::external_type_specification]
#[verifier::external_body]
pub struct ExJsonValue(Value);

/// What `serde_json::from_str` reads from `text`: the value, or the message
/// of the error with which it refuses the text.
pub uninterp spec fn json_value_of(text: Seq<char>) -> Result<Value, Seq<char>>;

/// The text that `serde_json::to_string` writes for a value.
pub uninterp spec fn json_text_of(v: Value) -> Seq<char>;

/// `serde_json::from_str` into a `Value`, with its error as its message
/// (`to_string`, which gives the position as well). Claims that the outcome
/// depends on the text alone (`json_value_of`).
#[verifier::external_body]
fn parse_value(text: &str) -> (res: Result<Value, String>)
    ensures
        res is Ok <==> json_value_of(text@) is Ok,
        res matches Ok(v) ==> ok_with(json_value_of(text@), v),
        res matches Err(m) ==> err_with(json_value_of(text@), m@),
{
    serde_json::from_str(text).map_err(|e: serde_json::Error| e.to_string())
}

/// `serde_json::to_string` of a `Value`, with its error as its message.
/// Claims what its source shows: writing a `Value` never fails (its map keys
/// are strings and the writer is an in-memory buffer), the text depends on
/// the value alone (`json_text_of`), and every value is written as a
/// non-empty text.
#[verifier::external_body]
fn write_value(v: &Value) -> (res: Result<String, String>)
    ensures
        res is Ok,
        res is Ok ==> res.unwrap()@ == json_text_of(*v),
        res is Ok ==> res.unwrap()@.len() > 0,
{
    serde_json::to_string(v).map_err(|e| e.to_string())
}

/// Why a JSON text was refused, or a value could not be written.
#[derive(Debug)]
pub struct JsonError {
    pub message: String,
}

/// `json_parse`: the JSON value of `text`; fails exactly when `serde_json`
/// refuses the text, with its message.
pub fn json_parse(text: &str) -> (res: Result<Value, JsonError>)
    ensures
        res is Ok <==> json_value_of(text@) is Ok,
        res matches Ok(v) ==> ok_with(json_value_of(text@), v),
        res matches Err(e) ==> err_with(json_value_of(text@), e.message@),
{
    match parse_value(text) {
        Ok(v) => Ok(v),
        Err(m) => Err(JsonError { message: m }),
    }
}

/// `json_stringify`: the JSON text of a value, as `serde_json` writes it. It
/// always succeeds and the text is never empty.
pub fn json_stringify(v: &Value) -> (res: Result<String, JsonError>)
    ensures
        res is Ok,
        res matches Ok(s) ==> s@ == json_text_of(*v),
        res matches Ok(s) ==> s@.len() > 0,
{
    match write_value(v) {
        Ok(s) => Ok(s),
        Err(m) => Err(JsonError { message: m }),
    }
}

} // verus!
