//! Tables as maps: a sequence of rows with distinct keys, seen as a map from key to row.

use vstd::prelude::*;

verus! {

/// No two rows have the same key.
pub open spec fn distinct_keys<K, V>(rows: Seq<(K, V)>) -> bool {
    forall|i: int, j: int| 0 <= i < j < rows.len() ==> (#[trigger] rows[i]).0 != (#[trigger] rows[j]).0
}

/// The map that the rows stand for; of two rows with one key the later would win.
pub open spec fn keyed<K, V>(rows: Seq<(K, V)>) -> Map<K, V>
    decreases rows.len(),
{
    if rows.len() == 0 {
        Map::empty()
    } else {
        keyed(rows.drop_last()).insert(rows.last().0, rows.last().1)
    }
}

/// The keys of the map are the keys of the rows.
pub proof fn lemma_keyed_contains<K, V>(rows: Seq<(K, V)>, key: K)
    ensures
        keyed(rows).contains_key(key) <==> exists|i: int|
            0 <= i < rows.len() && (#[trigger] rows[i]).0 == key,
    decreases rows.len(),
{
    if rows.len() > 0 {
        let shorter = rows.drop_last();
        lemma_keyed_contains(shorter, key);
        if rows.last().0 == key {
            assert(rows[rows.len() - 1].0 == key);
        }
        if exists|i: int| 0 <= i < shorter.len() && (#[trigger] shorter[i]).0 == key {
            let i = choose|i: int| 0 <= i < shorter.len() && (#[trigger] shorter[i]).0 == key;
            assert(rows[i].0 == key);
        }
        if exists|i: int| 0 <= i < rows.len() && (#[trigger] rows[i]).0 == key {
            let i = choose|i: int| 0 <= i < rows.len() && (#[trigger] rows[i]).0 == key;
            if i < shorter.len() {
                assert(shorter[i].0 == key);
            }
        }
    }
}

/// Each row is found under its key.
pub proof fn lemma_keyed_row<K, V>(rows: Seq<(K, V)>, i: int)
    requires
        distinct_keys(rows),
        0 <= i < rows.len(),
    ensures
        keyed(rows).contains_key(rows[i].0),
        keyed(rows)[rows[i].0] == rows[i].1,
    decreases rows.len(),
{
    let shorter = rows.drop_last();
    if i < shorter.len() {
        assert(distinct_keys(shorter)) by {
            assert forall|a: int, b: int| 0 <= a < b < shorter.len() implies (
            #[trigger] shorter[a]).0 != (#[trigger] shorter[b]).0 by {
                assert(rows[a].0 != rows[b].0);
            }
        }
        lemma_keyed_row(shorter, i);
        assert(shorter[i] == rows[i]);
        assert(rows[i].0 != rows[rows.len() - 1].0);
    }
}

/// A row under a new key adds one entry.
pub proof fn lemma_keyed_push<K, V>(rows: Seq<(K, V)>, row: (K, V))
    requires
        distinct_keys(rows),
        !keyed(rows).contains_key(row.0),
    ensures
        keyed(rows.push(row)) == keyed(rows).insert(row.0, row.1),
        distinct_keys(rows.push(row)),
{
    let longer = rows.push(row);
    assert(longer.drop_last() =~= rows);
    lemma_keyed_contains(rows, row.0);
    assert forall|a: int, b: int| 0 <= a < b < longer.len() implies (#[trigger] longer[a]).0 != (
    #[trigger] longer[b]).0 by {
        assert(longer[a] == rows[a]);
        if b < rows.len() {
            assert(longer[b] == rows[b]);
        }
    }
}

/// A row replaced under its key changes that entry alone.
pub proof fn lemma_keyed_update<K, V>(rows: Seq<(K, V)>, i: int, value: V)
    requires
        distinct_keys(rows),
        0 <= i < rows.len(),
    ensures
        keyed(rows.update(i, (rows[i].0, value))) == keyed(rows).insert(rows[i].0, value),
        distinct_keys(rows.update(i, (rows[i].0, value))),
{
    let after = rows.update(i, (rows[i].0, value));
    assert forall|a: int, b: int| 0 <= a < b < after.len() implies (#[trigger] after[a]).0 != (
    #[trigger] after[b]).0 by {
        assert(after[a].0 == rows[a].0);
        assert(after[b].0 == rows[b].0);
    }
    let left = keyed(after);
    let right = keyed(rows).insert(rows[i].0, value);
    assert forall|k: K| left.contains_key(k) <==> right.contains_key(k) by {
        lemma_keyed_contains(after, k);
        lemma_keyed_contains(rows, k);
        if exists|j: int| 0 <= j < after.len() && (#[trigger] after[j]).0 == k {
            let j = choose|j: int| 0 <= j < after.len() && (#[trigger] after[j]).0 == k;
            assert(rows[j].0 == k);
        }
        if exists|j: int| 0 <= j < rows.len() && (#[trigger] rows[j]).0 == k {
            let j = choose|j: int| 0 <= j < rows.len() && (#[trigger] rows[j]).0 == k;
            assert(after[j].0 == k);
        }
        if k == rows[i].0 {
            assert(after[i].0 == k);
        }
    }
    assert forall|k: K| left.contains_key(k) implies left[k] == right[k] by {
        lemma_keyed_contains(after, k);
        let j = choose|j: int| 0 <= j < after.len() && (#[trigger] after[j]).0 == k;
        lemma_keyed_row(after, j);
        lemma_keyed_row(rows, j);
        if j != i {
            assert(after[j] == rows[j]);
            if j < i {
                assert(rows[j].0 != rows[i].0);
            } else {
                assert(rows[i].0 != rows[j].0);
            }
        }
    }
    assert(left =~= right);
}

/// A row taken out takes its entry out.
pub proof fn lemma_keyed_remove<K, V>(rows: Seq<(K, V)>, i: int)
    requires
        distinct_keys(rows),
        0 <= i < rows.len(),
    ensures
        keyed(rows.remove(i)) == keyed(rows).remove(rows[i].0),
        distinct_keys(rows.remove(i)),
{
    let after = rows.remove(i);
    assert forall|a: int, b: int| 0 <= a < b < after.len() implies (#[trigger] after[a]).0 != (
    #[trigger] after[b]).0 by {
        let x = if a < i {
            a
        } else {
            a + 1
        };
        let y = if b < i {
            b
        } else {
            b + 1
        };
        assert(after[a] == rows[x] && after[b] == rows[y]);
    }
    let left = keyed(after);
    let right = keyed(rows).remove(rows[i].0);
    assert forall|k: K| left.contains_key(k) <==> right.contains_key(k) by {
        lemma_keyed_contains(after, k);
        lemma_keyed_contains(rows, k);
        if exists|j: int| 0 <= j < after.len() && (#[trigger] after[j]).0 == k {
            let j = choose|j: int| 0 <= j < after.len() && (#[trigger] after[j]).0 == k;
            let x = if j < i {
                j
            } else {
                j + 1
            };
            assert(rows[x].0 == k);
            if x < i {
                assert(rows[x].0 != rows[i].0);
            } else {
                assert(rows[i].0 != rows[x].0);
            }
        }
        if right.contains_key(k) {
            let j = choose|j: int| 0 <= j < rows.len() && (#[trigger] rows[j]).0 == k;
            let x = if j < i {
                j
            } else {
                j - 1
            };
            assert(after[x].0 == k);
        }
    }
    assert forall|k: K| left.contains_key(k) implies left[k] == right[k] by {
        lemma_keyed_contains(after, k);
        let j = choose|j: int| 0 <= j < after.len() && (#[trigger] after[j]).0 == k;
        let x = if j < i {
            j
        } else {
            j + 1
        };
        lemma_keyed_row(after, j);
        lemma_keyed_row(rows, x);
        assert(after[j] == rows[x]);
    }
    assert(left =~= right);
}

} // verus!
