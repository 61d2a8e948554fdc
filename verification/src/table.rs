//! Rows of named values, and the maps they stand for.
//!
//! The stored data is kept as rows `(name, value)` in the order in which the
//! names were first recorded. The contracts of the crate speak of the map
//! from names to values; the functions here connect the two.

use vstd::prelude::*;

verus! {

/// No name occurs in two rows.
pub open spec fn distinct<V>(rows: Seq<(Seq<char>, V)>) -> bool {
    forall|i: int, j: int| 0 <= i < j < rows.len() ==> rows[i].0 != rows[j].0
}

/// Some row carries `name`.
pub open spec fn names<V>(rows: Seq<(Seq<char>, V)>, name: Seq<char>) -> bool {
    exists|i: int| 0 <= i < rows.len() && (#[trigger] rows[i]).0 == name
}

/// `rows` lists `m`: every pair of `m` stands in exactly one row, and there is
/// no other row.
pub open spec fn lists<V>(rows: Seq<(Seq<char>, V)>, m: Map<Seq<char>, V>) -> bool {
    &&& distinct(rows)
    &&& forall|i: int| 0 <= i < rows.len() ==> m.contains_pair((#[trigger] rows[i]).0, rows[i].1)
    &&& forall|name: Seq<char>| #[trigger] m.contains_key(name) ==> names(rows, name)
}

/// The map that comes of recording the rows one after the other, a later row
/// replacing an earlier one of the same name.
pub open spec fn as_map<V>(rows: Seq<(Seq<char>, V)>) -> Map<Seq<char>, V>
    decreases rows.len(),
{
    if rows.len() == 0 {
        Map::empty()
    } else {
        as_map(rows.drop_last()).insert(rows.last().0, rows.last().1)
    }
}

/// The names of `as_map(rows)` are the names of the rows, and they are
/// finitely many.
pub proof fn lemma_as_map_names<V>(rows: Seq<(Seq<char>, V)>)
    ensures
        as_map(rows).dom().finite(),
        forall|name: Seq<char>| #[trigger] as_map(rows).contains_key(name) <==> names(rows, name),
    decreases rows.len(),
{
    if rows.len() > 0 {
        let init = rows.drop_last();
        lemma_as_map_names(init);
        assert forall|name: Seq<char>| #[trigger]
            as_map(rows).contains_key(name) <==> names(rows, name) by {
            if as_map(rows).contains_key(name) {
                if name == rows.last().0 {
                    assert(rows[rows.len() - 1].0 == name);
                } else {
                    assert(names(init, name));
                    let i = choose|i: int| 0 <= i < init.len() && (#[trigger] init[i]).0 == name;
                    assert(rows[i].0 == name);
                }
            }
            if names(rows, name) {
                let i = choose|i: int| 0 <= i < rows.len() && (#[trigger] rows[i]).0 == name;
                if i < rows.len() - 1 {
                    assert(init[i].0 == name);
                    assert(names(init, name));
                }
            }
        }
    }
}

/// Rows without a repeated name list the map they are recorded into.
pub proof fn lemma_distinct_lists<V>(rows: Seq<(Seq<char>, V)>)
    requires
        distinct(rows),
    ensures
        lists(rows, as_map(rows)),
    decreases rows.len(),
{
    lemma_as_map_names(rows);
    if rows.len() > 0 {
        let init = rows.drop_last();
        lemma_distinct_lists(init);
        lemma_as_map_names(init);
        assert forall|i: int| 0 <= i < rows.len() implies as_map(rows).contains_pair(
            (#[trigger] rows[i]).0,
            rows[i].1,
        ) by {
            if i < rows.len() - 1 {
                assert(init[i] == rows[i]);
                assert(rows[i].0 != rows[rows.len() - 1].0);
            }
        }
    }
}

/// Rows list at most one map.
pub proof fn lemma_lists_one<V>(rows: Seq<(Seq<char>, V)>, a: Map<Seq<char>, V>, b: Map<Seq<char>, V>)
    requires
        lists(rows, a),
        lists(rows, b),
    ensures
        a == b,
{
    assert forall|name: Seq<char>| a.contains_key(name) implies b.contains_key(name) && a[name]
        == b[name] by {
        let i = choose|i: int| 0 <= i < rows.len() && (#[trigger] rows[i]).0 == name;
        assert(b.contains_pair(rows[i].0, rows[i].1));
        assert(a.contains_pair(rows[i].0, rows[i].1));
    }
    assert forall|name: Seq<char>| b.contains_key(name) implies a.contains_key(name) by {
        let i = choose|i: int| 0 <= i < rows.len() && (#[trigger] rows[i]).0 == name;
        assert(a.contains_pair(rows[i].0, rows[i].1));
    }
    assert(a =~= b);
}

/// A listed map has as many names as there are rows.
pub proof fn lemma_lists_len<V>(rows: Seq<(Seq<char>, V)>, m: Map<Seq<char>, V>)
    requires
        lists(rows, m),
    ensures
        m.dom().finite(),
        m.dom().len() == rows.len(),
{
    lemma_distinct_lists(rows);
    lemma_lists_one(rows, m, as_map(rows));
    lemma_as_map_names(rows);
    let keys = rows.map_values(|r: (Seq<char>, V)| r.0);
    assert forall|i: int, j: int| 0 <= i < keys.len() && 0 <= j < keys.len() && i != j implies keys[i]
        != keys[j] by {
        if i < j {
            assert(rows[i].0 != rows[j].0);
        } else {
            assert(rows[j].0 != rows[i].0);
        }
    }
    keys.unique_seq_to_set();
    assert forall|name: Seq<char>| keys.to_set().contains(name) <==> m.dom().contains(name) by {
        if keys.to_set().contains(name) {
            let i = choose|i: int| 0 <= i < keys.len() && keys[i] == name;
            assert(m.contains_pair(rows[i].0, rows[i].1));
        }
        if m.dom().contains(name) {
            assert(m.contains_key(name));
            let i = choose|i: int| 0 <= i < rows.len() && (#[trigger] rows[i]).0 == name;
            assert(keys[i] == name);
        }
    }
    assert(keys.to_set() =~= m.dom());
}

/// A row under a new name extends the listed map by that name.
pub proof fn lemma_lists_push<V>(
    rows: Seq<(Seq<char>, V)>,
    m: Map<Seq<char>, V>,
    name: Seq<char>,
    value: V,
)
    requires
        lists(rows, m),
        !m.contains_key(name),
    ensures
        lists(rows.push((name, value)), m.insert(name, value)),
{
    let next = rows.push((name, value));
    let grown = m.insert(name, value);
    assert forall|i: int, j: int| 0 <= i < j < next.len() implies next[i].0 != next[j].0 by {
        assert(m.contains_pair(rows[i].0, rows[i].1));
        if j < rows.len() {
            assert(rows[i].0 != rows[j].0);
        }
    }
    assert forall|i: int| 0 <= i < next.len() implies grown.contains_pair(
        (#[trigger] next[i]).0,
        next[i].1,
    ) by {
        if i < rows.len() {
            assert(m.contains_pair(rows[i].0, rows[i].1));
        }
    }
    assert forall|k: Seq<char>| #[trigger] grown.contains_key(k) implies names(next, k) by {
        if k == name {
            assert(next[rows.len() as int].0 == k);
        } else {
            assert(m.contains_key(k));
            let i = choose|i: int| 0 <= i < rows.len() && (#[trigger] rows[i]).0 == k;
            assert(next[i].0 == k);
        }
    }
}

/// A new value in row `at` replaces the value of that row's name in the
/// listed map.
pub proof fn lemma_lists_update<V>(
    rows: Seq<(Seq<char>, V)>,
    m: Map<Seq<char>, V>,
    at: int,
    value: V,
)
    requires
        lists(rows, m),
        0 <= at < rows.len(),
    ensures
        lists(rows.update(at, (rows[at].0, value)), m.insert(rows[at].0, value)),
{
    let next = rows.update(at, (rows[at].0, value));
    let changed = m.insert(rows[at].0, value);
    assert forall|i: int, j: int| 0 <= i < j < next.len() implies next[i].0 != next[j].0 by {
        assert(rows[i].0 != rows[j].0);
    }
    assert forall|i: int| 0 <= i < next.len() implies changed.contains_pair(
        (#[trigger] next[i]).0,
        next[i].1,
    ) by {
        assert(m.contains_pair(rows[i].0, rows[i].1));
        if i != at {
            if i < at {
                assert(rows[i].0 != rows[at].0);
            } else {
                assert(rows[at].0 != rows[i].0);
            }
        }
    }
    assert forall|k: Seq<char>| #[trigger] changed.contains_key(k) implies names(next, k) by {
        if k == rows[at].0 {
            assert(next[at].0 == k);
        } else {
            assert(m.contains_key(k));
            let i = choose|i: int| 0 <= i < rows.len() && (#[trigger] rows[i]).0 == k;
            assert(next[i].0 == k);
        }
    }
}

} // verus!
