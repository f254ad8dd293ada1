//! The current contents of a keyed log: its live keys in key order, each
//! with its latest value.
use vstd::prelude::*;
use crate::table::{lemma_lookup_push, lookup};

verus! {

/// The order of table keys: lexicographic on the three components.
pub open spec fn key_lt(a: (u64, u64, u64), b: (u64, u64, u64)) -> bool {
    a.0 < b.0 || (a.0 == b.0 && (a.1 < b.1 || (a.1 == b.1 && a.2 < b.2)))
}

/// A log whose entries set a key to a value (`Some`) or remove it (`None`).
pub type KeyLog = Seq<((u64, u64, u64), Option<Seq<u64>>)>;

/// `rows` holds exactly the keys that `log` currently maps to a value, in
/// strictly increasing key order, each with that value.
pub open spec fn current_rows(rows: Seq<((u64, u64, u64), Seq<u64>)>, log: KeyLog) -> bool {
    &&& forall|i: int, j: int|
        #![trigger rows[i], rows[j]]
        0 <= i < j < rows.len() ==> key_lt(rows[i].0, rows[j].0)
    &&& forall|i: int|
        #![trigger rows[i]]
        0 <= i < rows.len() ==> lookup(log, rows[i].0) == Some(Some(rows[i].1))
    &&& forall|k: (u64, u64, u64)|
        #![trigger lookup(log, k)]
        lookup(log, k) matches Some(Some(_)) ==> exists|i: int|
            0 <= i < rows.len() && rows[i].0 == k
}

/// The rows as integers: keys, and the contents of the values.
pub open spec fn rows_view(rows: Seq<((u64, u64, u64), Vec<u64>)>) -> Seq<
    ((u64, u64, u64), Seq<u64>),
> {
    rows.map_values(|e: ((u64, u64, u64), Vec<u64>)| (e.0, e.1@))
}

pub open spec fn entry_view(v: Option<Vec<u64>>) -> Option<Seq<u64>> {
    match v {
        Some(w) => Some(w@),
        None => None,
    }
}

/// Brings `rows`, the current contents of `log`, up to date with one more
/// log entry: key `k` set to `v`, or removed when `v` is `None`.
pub fn upsert(
    rows: &mut Vec<((u64, u64, u64), Vec<u64>)>,
    Ghost(log): Ghost<KeyLog>,
    k: (u64, u64, u64),
    v: Option<Vec<u64>>,
)
    requires
        current_rows(rows_view(old(rows)@), log),
    ensures
        current_rows(rows_view(final(rows)@), log.push((k, entry_view(v)))),
{
    let ghost r0 = rows_view(rows@);
    let ghost log2 = log.push((k, entry_view(v)));
    proof {
        assert forall|k2: (u64, u64, u64)| #[trigger] lookup(log2, k2) == (if k2 == k {
            Some(entry_view(v))
        } else {
            lookup(log, k2)
        }) by {
            lemma_lookup_push(log, (k, entry_view(v)), k2);
        }
    }
    let n = rows.len();
    let mut j: usize = 0;
    while j < n && (rows[j].0.0 < k.0 || (rows[j].0.0 == k.0 && (rows[j].0.1 < k.1 || (
    rows[j].0.1 == k.1 && rows[j].0.2 < k.2))))
        invariant
            n == rows@.len(),
            r0 == rows_view(rows@),
            j <= n,
            forall|a: int| 0 <= a < j ==> key_lt(#[trigger] r0[a].0, k),
        decreases n - j,
    {
        j = j + 1;
    }
    if j < n && rows[j].0.0 == k.0 && rows[j].0.1 == k.1 && rows[j].0.2 == k.2 {
        assert(r0[j as int].0 == k);
        match v {
            Some(w) => {
                let ghost wv = w@;
                rows.set(j, (k, w));
                proof {
                    let r1 = rows_view(rows@);
                    assert(r1 =~= r0.update(j as int, (k, wv)));
                    assert forall|k2: (u64, u64, u64)|
                        #![trigger lookup(log2, k2)]
                        lookup(log2, k2) matches Some(Some(_)) implies exists|i: int|
                            0 <= i < r1.len() && r1[i].0 == k2 by {
                        if k2 == k {
                            assert(r1[j as int].0 == k2);
                        } else {
                            let i = choose|i: int| 0 <= i < r0.len() && r0[i].0 == k2;
                            assert(r1[i].0 == k2);
                        }
                    }
                    assert forall|i: int| #![trigger r1[i]] 0 <= i < r1.len() implies lookup(
                        log2,
                        r1[i].0,
                    ) == Some(Some(r1[i].1)) by {
                        if i != j {
                            if i < j {
                                assert(key_lt(r0[i].0, r0[j as int].0));
                            } else {
                                assert(key_lt(r0[j as int].0, r0[i].0));
                            }
                        }
                    }
                    assert forall|a: int, b: int|
                        #![trigger r1[a], r1[b]]
                        0 <= a < b < r1.len() implies key_lt(r1[a].0, r1[b].0) by {
                        assert(key_lt(r0[a].0, r0[b].0));
                    }
                }
            },
            None => {
                rows.remove(j);
                proof {
                    let r1 = rows_view(rows@);
                    assert(r1 =~= r0.remove(j as int));
                    assert forall|k2: (u64, u64, u64)|
                        #![trigger lookup(log2, k2)]
                        lookup(log2, k2) matches Some(Some(_)) implies exists|i: int|
                            0 <= i < r1.len() && r1[i].0 == k2 by {
                        let i = choose|i: int| 0 <= i < r0.len() && r0[i].0 == k2;
                        if i < j {
                            assert(r1[i].0 == k2);
                        } else {
                            assert(r1[i - 1].0 == k2);
                        }
                    }
                    assert forall|i: int| #![trigger r1[i]] 0 <= i < r1.len() implies lookup(
                        log2,
                        r1[i].0,
                    ) == Some(Some(r1[i].1)) by {
                        if i < j {
                            assert(r1[i] == r0[i]);
                            assert(key_lt(r0[i].0, r0[j as int].0));
                        } else {
                            assert(r1[i] == r0[i + 1]);
                            assert(key_lt(r0[j as int].0, r0[i + 1].0));
                        }
                    }
                    assert forall|a: int, b: int|
                        #![trigger r1[a], r1[b]]
                        0 <= a < b < r1.len() implies key_lt(r1[a].0, r1[b].0) by {
                        if b < j {
                            assert(key_lt(r0[a].0, r0[b].0));
                        } else if a < j {
                            assert(key_lt(r0[a].0, r0[b + 1].0));
                        } else {
                            assert(key_lt(r0[a + 1].0, r0[b + 1].0));
                        }
                    }
                }
            },
        }
    } else {
        proof {
            assert forall|b: int| j <= b < r0.len() implies key_lt(k, #[trigger] r0[b].0) by {
                if b > j {
                    assert(key_lt(r0[j as int].0, r0[b].0));
                }
            }
            assert forall|i: int| 0 <= i < r0.len() implies #[trigger] r0[i].0 != k by {
                if i < j {
                    assert(key_lt(r0[i].0, k));
                } else {
                    assert(key_lt(k, r0[i].0));
                }
            }
        }
        match v {
            Some(w) => {
                let ghost wv = w@;
                rows.insert(j, (k, w));
                proof {
                    let r1 = rows_view(rows@);
                    assert(r1 =~= r0.insert(j as int, (k, wv)));
                    assert forall|k2: (u64, u64, u64)|
                        #![trigger lookup(log2, k2)]
                        lookup(log2, k2) matches Some(Some(_)) implies exists|i: int|
                            0 <= i < r1.len() && r1[i].0 == k2 by {
                        if k2 == k {
                            assert(r1[j as int].0 == k2);
                        } else {
                            let i = choose|i: int| 0 <= i < r0.len() && r0[i].0 == k2;
                            if i < j {
                                assert(r1[i].0 == k2);
                            } else {
                                assert(r1[i + 1].0 == k2);
                            }
                        }
                    }
                    assert forall|i: int| #![trigger r1[i]] 0 <= i < r1.len() implies lookup(
                        log2,
                        r1[i].0,
                    ) == Some(Some(r1[i].1)) by {
                        if i < j {
                            assert(r1[i] == r0[i]);
                        } else if i > j {
                            assert(r1[i] == r0[i - 1]);
                        }
                    }
                    assert forall|a: int, b: int|
                        #![trigger r1[a], r1[b]]
                        0 <= a < b < r1.len() implies key_lt(r1[a].0, r1[b].0) by {
                        if b < j {
                            assert(key_lt(r0[a].0, r0[b].0));
                        } else if b == j {
                            assert(key_lt(r0[a].0, k));
                        } else if a < j {
                            assert(key_lt(r0[a].0, k));
                            assert(key_lt(k, r0[b - 1].0));
                        } else if a == j {
                            assert(key_lt(k, r0[b - 1].0));
                        } else {
                            assert(key_lt(r0[a - 1].0, r0[b - 1].0));
                        }
                    }
                }
            },
            None => {
                proof {
                    assert forall|i: int| #![trigger r0[i]] 0 <= i < r0.len() implies lookup(
                        log2,
                        r0[i].0,
                    ) == Some(Some(r0[i].1)) by {
                        assert(r0[i].0 != k);
                    }
                }
            },
        }
    }
}

} // verus!


verus! {

/// The keys of `a` strictly increase.
pub open spec fn strictly_sorted(a: Seq<((u64, u64, u64), Seq<u64>)>) -> bool {
    forall|i: int, j: int| #![trigger a[i], a[j]] 0 <= i < j < a.len() ==> key_lt(a[i].0, a[j].0)
}

/// `r` is a row of `b`.
pub open spec fn row_in(b: Seq<((u64, u64, u64), Seq<u64>)>, r: ((u64, u64, u64), Seq<u64>)) -> bool {
    exists|j: int| 0 <= j < b.len() && b[j] == r
}

/// Every row of `a` is a row of `b`.
pub open spec fn rows_within(a: Seq<((u64, u64, u64), Seq<u64>)>, b: Seq<((u64, u64, u64), Seq<u64>)>) -> bool {
    forall|i: int| 0 <= i < a.len() ==> #[trigger] row_in(b, a[i])
}

#[verifier::rlimit(50)]
proof fn lemma_sorted_rows_equal(a: Seq<((u64, u64, u64), Seq<u64>)>, b: Seq<((u64, u64, u64), Seq<u64>)>)
    requires
        strictly_sorted(a),
        strictly_sorted(b),
        rows_within(a, b),
        rows_within(b, a),
    ensures
        a == b,
    decreases a.len(),
{
    if a.len() == 0 {
        if b.len() > 0 {
            assert(row_in(a, b[0]));
        }
        assert(a =~= b);
    } else {
        assert(row_in(b, a[0]));
        let j = choose|j: int| 0 <= j < b.len() && b[j] == a[0];
        assert(row_in(a, b[0]));
        let i = choose|i: int| 0 <= i < a.len() && a[i] == b[0];
        if j > 0 {
            assert(key_lt(b[0].0, b[j].0));
            if i > 0 {
                assert(key_lt(a[0].0, a[i].0));
            }
        }
        assert(a[0] == b[0]);
        let a1 = a.drop_first();
        let b1 = b.drop_first();
        assert(rows_within(a1, b1)) by {
                    assert forall|x: int| #![trigger a1[x]] 0 <= x < a1.len() implies row_in(b1, a1[x]) by {
                assert(row_in(b, a[x + 1]));
                let y = choose|y: int| 0 <= y < b.len() && b[y] == a[x + 1];
                assert(0 <= y < b.len() && b[y] == a[x + 1]);
                assert(key_lt(a[0].0, a[x + 1].0));
                assert(y != 0);
                assert(b1[y - 1] == a1[x]);
                    assert(0 <= y - 1 < b1.len());
                assert(0 <= y - 1 < b1.len());
            }
        }
        assert(rows_within(b1, a1)) by {
                    assert forall|x: int| #![trigger b1[x]] 0 <= x < b1.len() implies row_in(a1, b1[x]) by {
                assert(row_in(a, b[x + 1]));
                let y = choose|y: int| 0 <= y < a.len() && a[y] == b[x + 1];
                assert(key_lt(b[0].0, b[x + 1].0));
                assert(y != 0);
                assert(a1[y - 1] == b1[x]);
                    assert(0 <= y - 1 < a1.len());
            }
        }
        assert forall|x: int, y: int| #![trigger a1[x], a1[y]] 0 <= x < y < a1.len() implies key_lt(a1[x].0, a1[y].0) by {
            assert(key_lt(a[x + 1].0, a[y + 1].0));
        }
        assert forall|x: int, y: int| #![trigger b1[x], b1[y]] 0 <= x < y < b1.len() implies key_lt(b1[x].0, b1[y].0) by {
            assert(key_lt(b[x + 1].0, b[y + 1].0));
        }
        assert(strictly_sorted(a1));
        assert(strictly_sorted(b1));
        lemma_sorted_rows_equal(a1, b1);
        assert(a.len() == b.len());
        assert forall|k: int| 0 <= k < a.len() implies a[k] == b[k] by {
            if k > 0 {
                assert(a[k] == a1[k - 1]);
                assert(b[k] == b1[k - 1]);
            }
        }
        assert(a =~= b);
    }
}

/// The current rows of a log are unique: two sequences of rows that both
/// hold its current contents in key order are equal.
pub proof fn lemma_current_rows_unique(
    r1: Seq<((u64, u64, u64), Seq<u64>)>,
    r2: Seq<((u64, u64, u64), Seq<u64>)>,
    log: KeyLog,
)
    requires
        current_rows(r1, log),
        current_rows(r2, log),
    ensures
        r1 == r2,
{
    assert forall|i: int| #![trigger r1[i]] 0 <= i < r1.len() implies row_in(r2, r1[i]) by {
        assert(lookup(log, r1[i].0) == Some(Some(r1[i].1)));
        let j = choose|j: int| 0 <= j < r2.len() && r2[j].0 == r1[i].0;
        assert(r2[j] == r2[j]);
    }
    assert forall|i: int| #![trigger r2[i]] 0 <= i < r2.len() implies row_in(r1, r2[i]) by {
        assert(lookup(log, r2[i].0) == Some(Some(r2[i].1)));
        let j = choose|j: int| 0 <= j < r1.len() && r1[j].0 == r2[i].0;
        assert(r1[j] == r1[j]);
    }
    lemma_sorted_rows_equal(r1, r2);
}

} // verus!
