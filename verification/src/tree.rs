//! A typed configuration tree: a tagged value that is a string, an array of
//! strings, or a table of key-value pairs, with lookup by key, insertion that
//! keeps keys in lexicographic order, and a canonical textual serialization.

use crate::text::{lemma_lex_lt_total, lemma_lex_lt_trans, lex_lt, str_eq, str_lt};
use vstd::prelude::*;
use vstd::string::StrSliceExecFns;
use vstd::string::StringExecFns;

verus! {

broadcast use vstd::std_specs::vec::group_vec_axioms, vstd::seq::group_seq_axioms;

/// One node of a configuration tree: a string leaf, an array-of-strings
/// leaf, or a table of key-value pairs.
#[derive(Debug, PartialEq)]
pub enum ConfigValue {
    Str(String),
    Arr(Vec<String>),
    Table(Vec<(String, ConfigValue)>),
}

/// The entry sequence of a table; empty for the two leaf kinds.
pub open spec fn entries_of(t: ConfigValue) -> Seq<(String, ConfigValue)> {
    match t {
        ConfigValue::Table(es) => es@,
        _ => Seq::empty(),
    }
}

/// The value bound to `key` by the first matching entry of `es`.
pub open spec fn spec_get_entries(es: Seq<(String, ConfigValue)>, key: Seq<char>) -> Option<
    ConfigValue,
>
    decreases es.len(),
{
    if es.len() == 0 {
        None
    } else if es[0].0@ == key {
        Some(es[0].1)
    } else {
        spec_get_entries(es.subrange(1, es.len() as int), key)
    }
}

/// The value bound to `key` in `t`: `None` when `t` is not a table or has no
/// entry for `key`.
pub open spec fn spec_get(t: ConfigValue, key: Seq<char>) -> Option<ConfigValue> {
    match t {
        ConfigValue::Table(es) => spec_get_entries(es@, key),
        _ => None,
    }
}

/// `es` with `(key, value)` bound: an entry whose key matches is replaced,
/// and otherwise the pair is placed before the first larger key.
pub open spec fn spec_insert(
    es: Seq<(String, ConfigValue)>,
    key: String,
    value: ConfigValue,
) -> Seq<(String, ConfigValue)>
    decreases es.len(),
{
    if es.len() == 0 {
        seq![(key, value)]
    } else if es[0].0@ == key@ {
        seq![(key, value)] + es.subrange(1, es.len() as int)
    } else if lex_lt(key@, es[0].0@) {
        seq![(key, value)] + es
    } else {
        seq![es[0]] + spec_insert(es.subrange(1, es.len() as int), key, value)
    }
}

proof fn lemma_spec_insert_skip(
    es: Seq<(String, ConfigValue)>,
    key: String,
    value: ConfigValue,
    i: int,
)
    requires
        0 <= i <= es.len(),
        forall|j: int| 0 <= j < i ==> (#[trigger] es[j]).0@ != key@ && !lex_lt(key@, es[j].0@),
    ensures
        spec_insert(es, key, value) == es.subrange(0, i) + spec_insert(
            es.subrange(i, es.len() as int),
            key,
            value,
        ),
    decreases i,
{
    if i == 0 {
        assert(es.subrange(0, es.len() as int) =~= es);
        assert(es.subrange(0, 0) + spec_insert(es, key, value) =~= spec_insert(es, key, value));
    } else {
        let tail = es.subrange(1, es.len() as int);
        assert forall|j: int| 0 <= j < i - 1 implies (#[trigger] tail[j]).0@ != key@ && !lex_lt(
            key@,
            tail[j].0@,
        ) by {
            assert(tail[j] == es[j + 1]);
        }
        lemma_spec_insert_skip(tail, key, value, i - 1);
        assert(tail.subrange(0, i - 1) =~= es.subrange(1, i));
        assert(tail.subrange(i - 1, tail.len() as int) =~= es.subrange(i, es.len() as int));
        assert(seq![es[0]] + (es.subrange(1, i) + spec_insert(
            es.subrange(i, es.len() as int),
            key,
            value,
        )) =~= es.subrange(0, i) + spec_insert(es.subrange(i, es.len() as int), key, value));
    }
}

impl ConfigValue {
    /// The first entry of this table bound to `key`, if any.
    pub fn get<'a>(&'a self, key: &str) -> (r: Option<&'a ConfigValue>)
        ensures
            match r {
                Some(v) => spec_get(*self, key@) == Some(*v),
                None => spec_get(*self, key@) is None,
            },
    {
        match self {
            ConfigValue::Table(es) => {
                let n = es.len();
                proof {
                    assert(es@.subrange(0, n as int) =~= es@);
                }
                let mut i: usize = 0;
                #[verifier::loop_isolation(false)]
                while i < n
                    invariant
                        n == es@.len(),
                        i <= n,
                        spec_get_entries(es@, key@) == spec_get_entries(
                            es@.subrange(i as int, n as int),
                            key@,
                        ),
                    decreases n - i,
                {
                    proof {
                        let suf = es@.subrange(i as int, n as int);
                        assert(suf[0] == es@[i as int]);
                        assert(suf.subrange(1, suf.len() as int) =~= es@.subrange(
                            i as int + 1,
                            n as int,
                        ));
                    }
                    if str_eq(es[i].0.as_str(), key) {
                        proof {
                            let suf = es@.subrange(i as int, n as int);
                            assert(spec_get_entries(suf, key@) == Some(suf[0].1));
                        }
                        return Some(&es[i].1);
                    }
                    i += 1;
                }
                None
            },
            _ => None,
        }
    }

    /// Binds `key` to `value` in this table, replacing an existing binding
    /// and otherwise inserting before the first larger key, so that a table
    /// built by insertions alone keeps its keys in lexicographic order.
    pub fn insert(self, key: String, value: ConfigValue) -> (r: ConfigValue)
        requires
            self is Table,
        ensures
            r is Table,
            entries_of(r) == spec_insert(entries_of(self), key, value),
    {
        let ghost orig = entries_of(self);
        match self {
            ConfigValue::Table(mut es) => {
                let mut i: usize = 0;
                #[verifier::loop_isolation(false)]
                loop
                    invariant
                        i <= es@.len(),
                        es@ == orig,
                        forall|j: int|
                            0 <= j < i ==> (#[trigger] es@[j]).0@ != key@ && !lex_lt(
                                key@,
                                es@[j].0@,
                            ),
                    decreases es@.len() - i,
                {
                    proof {
                        lemma_spec_insert_skip(orig, key, value, i as int);
                    }
                    if i >= es.len() {
                        proof {
                            assert(orig.subrange(i as int, orig.len() as int).len() == 0);
                            assert(spec_insert(orig, key, value) =~= orig + seq![(key, value)]);
                        }
                        es.push((key, value));
                        proof {
                            assert(es@ =~= orig + seq![(key, value)]);
                        }
                        return ConfigValue::Table(es);
                    }
                    let ghost suf = orig.subrange(i as int, orig.len() as int);
                    proof {
                        assert(suf[0] == orig[i as int]);
                        assert(suf.subrange(1, suf.len() as int) =~= orig.subrange(
                            i as int + 1,
                            orig.len() as int,
                        ));
                    }
                    if str_eq(es[i].0.as_str(), key.as_str()) {
                        let _replaced = es.remove(i);
                        es.insert(i, (key, value));
                        proof {
                            assert(es@ =~= orig.subrange(0, i as int) + (seq![(key, value)]
                                + orig.subrange(i as int + 1, orig.len() as int)));
                        }
                        return ConfigValue::Table(es);
                    }
                    if str_lt(key.as_str(), es[i].0.as_str()) {
                        es.insert(i, (key, value));
                        proof {
                            assert(es@ =~= orig.subrange(0, i as int) + (seq![(key, value)]
                                + suf));
                        }
                        return ConfigValue::Table(es);
                    }
                    i += 1;
                }
            },
            v => {
                proof {
                    assert(false);
                }
                v
            },
        }
    }
}

/// The keys of `es` appear in strictly increasing lexicographic order: the
/// canonical order, under which serialization does not depend on the order
/// the bindings arrived in.
pub open spec fn entries_sorted(es: Seq<(String, ConfigValue)>) -> bool {
    forall|j: int, k: int|
        #![trigger es[j], es[k]]
        0 <= j < k < es.len() ==> lex_lt(es[j].0@, es[k].0@)
}

proof fn lemma_insert_lower_bound(
    es: Seq<(String, ConfigValue)>,
    key: String,
    value: ConfigValue,
    lo: Seq<char>,
)
    requires
        lex_lt(lo, key@),
        forall|j: int| 0 <= j < es.len() ==> lex_lt(lo, (#[trigger] es[j]).0@),
    ensures
        forall|i: int|
            0 <= i < spec_insert(es, key, value).len() ==> lex_lt(
                lo,
                (#[trigger] spec_insert(es, key, value)[i]).0@,
            ),
    decreases es.len(),
{
    let r = spec_insert(es, key, value);
    if es.len() == 0 {
        assert(r[0].0@ == key@);
    } else if es[0].0@ == key@ {
        let tail = es.subrange(1, es.len() as int);
        assert forall|i: int| 0 <= i < r.len() implies lex_lt(lo, (#[trigger] r[i]).0@) by {
            if i >= 1 {
                assert(r[i] == es[i]);
            }
        }
    } else if lex_lt(key@, es[0].0@) {
        assert forall|i: int| 0 <= i < r.len() implies lex_lt(lo, (#[trigger] r[i]).0@) by {
            if i >= 1 {
                assert(r[i] == es[i - 1]);
            }
        }
    } else {
        let tail = es.subrange(1, es.len() as int);
        assert forall|j: int| 0 <= j < tail.len() implies lex_lt(lo, (#[trigger] tail[j]).0@) by {
            assert(tail[j] == es[j + 1]);
        }
        lemma_insert_lower_bound(tail, key, value, lo);
        assert forall|i: int| 0 <= i < r.len() implies lex_lt(lo, (#[trigger] r[i]).0@) by {
            if i >= 1 {
                assert(r[i] == spec_insert(tail, key, value)[i - 1]);
            }
        }
    }
}

/// Insertion keeps the canonical order: binding a key in a table whose keys
/// are strictly increasing yields a table whose keys are strictly
/// increasing, so a table built by insertions alone serializes to the same
/// text whatever order its bindings arrived in.
pub proof fn lemma_insert_preserves_order(
    es: Seq<(String, ConfigValue)>,
    key: String,
    value: ConfigValue,
)
    requires
        entries_sorted(es),
    ensures
        entries_sorted(spec_insert(es, key, value)),
    decreases es.len(),
{
    let r = spec_insert(es, key, value);
    if es.len() == 0 {
    } else {
        let tail = es.subrange(1, es.len() as int);
        assert forall|j: int, k: int|
            #![trigger tail[j], tail[k]]
            0 <= j < k < tail.len() implies lex_lt(tail[j].0@, tail[k].0@) by {
            assert(tail[j] == es[j + 1]);
            assert(tail[k] == es[k + 1]);
        }
        if es[0].0@ == key@ {
            assert forall|j: int, k: int|
                #![trigger r[j], r[k]]
                0 <= j < k < r.len() implies lex_lt(r[j].0@, r[k].0@) by {
                assert(r[k] == tail[k - 1]);
                assert(tail[k - 1] == es[k]);
                if j >= 1 {
                    assert(r[j] == es[j]);
                } else {
                    assert(r[0].0@ == key@);
                    assert(lex_lt(es[0].0@, es[k].0@));
                }
            }
        } else if lex_lt(key@, es[0].0@) {
            assert forall|j: int, k: int|
                #![trigger r[j], r[k]]
                0 <= j < k < r.len() implies lex_lt(r[j].0@, r[k].0@) by {
                assert(r[k] == es[k - 1]);
                if j >= 1 {
                    assert(r[j] == es[j - 1]);
                } else {
                    assert(r[0].0@ == key@);
                    if k >= 2 {
                        lemma_lex_lt_trans(key@, es[0].0@, es[k - 1].0@);
                    }
                }
            }
        } else {
            lemma_lex_lt_total(key@, es[0].0@);
            assert(lex_lt(es[0].0@, key@));
            lemma_insert_preserves_order(tail, key, value);
            lemma_insert_lower_bound(tail, key, value, es[0].0@);
            let rt = spec_insert(tail, key, value);
            assert forall|j: int, k: int|
                #![trigger r[j], r[k]]
                0 <= j < k < r.len() implies lex_lt(r[j].0@, r[k].0@) by {
                assert(r[k] == rt[k - 1]);
                if j >= 1 {
                    assert(r[j] == rt[j - 1]);
                } else {
                    assert(r[0] == es[0]);
                }
            }
        }
    }
}

/// `t` surrounded by double quotes.
pub open spec fn quoted(t: Seq<char>) -> Seq<char> {
    seq!['"'] + t + seq!['"']
}

/// The elements of a string array, quoted and joined with commas.
pub open spec fn ser_items(ts: Seq<Seq<char>>) -> Seq<char>
    decreases ts.len(),
{
    if ts.len() == 0 {
        Seq::empty()
    } else if ts.len() == 1 {
        quoted(ts[0])
    } else {
        ser_items(ts.subrange(0, ts.len() - 1)) + seq![','] + quoted(ts[ts.len() - 1])
    }
}

/// The canonical text of one value.
pub open spec fn ser_value(t: ConfigValue) -> Seq<char>
    decreases t,
{
    match t {
        ConfigValue::Str(s) => quoted(s@),
        ConfigValue::Arr(items) => seq!['['] + ser_items(items.deep_view()) + seq![']'],
        ConfigValue::Table(es) => seq!['{'] + ser_entries(es@) + seq!['}'],
    }
}

/// The canonical text of a table's entries, `key=value` joined with commas.
pub open spec fn ser_entries(es: Seq<(String, ConfigValue)>) -> Seq<char>
    decreases es,
{
    if es.len() == 0 {
        Seq::empty()
    } else if es.len() == 1 {
        es[0].0@ + seq!['='] + ser_value(es[0].1)
    } else {
        ser_entries(es.subrange(0, es.len() - 1)) + seq![','] + (es[es.len() - 1].0@ + seq!['=']
            + ser_value(es[es.len() - 1].1))
    }
}

/// Renders a value in its canonical textual form: table keys appear in
/// stored order, which insertion keeps lexicographic, so semantically equal
/// tables built by insertion serialize to identical text.
pub fn serialize(v: &ConfigValue) -> (r: String)
    ensures
        r@ == ser_value(*v),
    decreases *v,
{
    proof {
        reveal_strlit("\"");
        reveal_strlit("[");
        reveal_strlit("]");
        reveal_strlit("{");
        reveal_strlit("}");
        reveal_strlit(",");
        reveal_strlit("=");
    }
    match v {
        ConfigValue::Str(s) => {
            let mut out = String::new();
            out.append("\"");
            out.append(s.as_str());
            out.append("\"");
            proof {
                assert(out@ =~= quoted(s@));
            }
            out
        },
        ConfigValue::Arr(items) => {
            let mut out = String::new();
            out.append("[");
            let n = items.len();
            let mut i: usize = 0;
            #[verifier::loop_isolation(false)]
            while i < n
                invariant
                    n == items@.len(),
                    items.deep_view().len() == n,
                    i <= n,
                    out@ == seq!['['] + ser_items(items.deep_view().subrange(0, i as int)),
                decreases n - i,
            {
                proof {
                    reveal_strlit("\"");
                    reveal_strlit(",");
                }
                if i > 0 {
                    out.append(",");
                }
                out.append("\"");
                out.append(items[i].as_str());
                out.append("\"");
                proof {
                    let d = items.deep_view();
                    let pre = d.subrange(0, i as int + 1);
                    assert(pre.subrange(0, pre.len() - 1) =~= d.subrange(0, i as int));
                    assert(pre[pre.len() - 1] == d[i as int]);
                    assert(d[i as int] == items@[i as int]@);
                    if i == 0 {
                        assert(out@ =~= seq!['['] + quoted(pre[0]));
                    } else {
                        assert(out@ =~= seq!['['] + (ser_items(pre.subrange(0, pre.len() - 1))
                            + seq![','] + quoted(pre[pre.len() - 1])));
                    }
                }
                i += 1;
            }
            out.append("]");
            proof {
                assert(items.deep_view().subrange(0, n as int) =~= items.deep_view());
                assert(out@ =~= ser_value(*v));
            }
            out
        },
        ConfigValue::Table(es) => {
            let mut out = String::new();
            out.append("{");
            let n = es.len();
            let mut i: usize = 0;
            #[verifier::loop_isolation(false)]
            while i < n
                invariant
                    n == es@.len(),
                    i <= n,
                    out@ == seq!['{'] + ser_entries(es@.subrange(0, i as int)),
                decreases n - i,
            {
                proof {
                    reveal_strlit(",");
                    reveal_strlit("=");
                }
                if i > 0 {
                    out.append(",");
                }
                out.append(es[i].0.as_str());
                out.append("=");
                proof {
                    assert(decreases_to!(*v => *es));
                    assert(decreases_to!(*es => es@));
                    assert(decreases_to!(es@ => es@[i as int]));
                }
                let sv = serialize(&es[i].1);
                out.append(sv.as_str());
                proof {
                    let pre = es@.subrange(0, i as int + 1);
                    assert(pre.subrange(0, pre.len() - 1) =~= es@.subrange(0, i as int));
                    assert(pre[pre.len() - 1] == es@[i as int]);
                    if i == 0 {
                        assert(out@ =~= seq!['{'] + (pre[0].0@ + seq!['='] + ser_value(
                            pre[0].1,
                        )));
                    } else {
                        assert(out@ =~= seq!['{'] + (ser_entries(pre.subrange(0, pre.len() - 1))
                            + seq![','] + (pre[pre.len() - 1].0@ + seq!['='] + ser_value(
                            pre[pre.len() - 1].1,
                        ))));
                    }
                }
                i += 1;
            }
            out.append("}");
            proof {
                assert(es@.subrange(0, n as int) =~= es@);
                assert(out@ =~= ser_value(*v));
            }
            out
        },
    }
}

} // verus!
