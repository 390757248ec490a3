use vstd::prelude::*;

verus! {

/// The position of the first `x` in `s`, or -1 when `s` holds no `x`.
pub open spec fn first_pos<A>(s: Seq<A>, x: A) -> int
    decreases s.len(),
{
    if s.len() == 0 {
        -1
    } else if s[0] == x {
        0
    } else {
        let p = first_pos(s.drop_first(), x);
        if p < 0 {
            -1
        } else {
            p + 1
        }
    }
}

/// `first_pos` finds the first occurrence, and -1 exactly when there is none.
pub proof fn lemma_first_pos<A>(s: Seq<A>, x: A)
    ensures
        first_pos(s, x) == -1 <==> !s.contains(x),
        first_pos(s, x) >= 0 ==> {
            &&& first_pos(s, x) < s.len()
            &&& s[first_pos(s, x)] == x
            &&& forall|j: int| 0 <= j < first_pos(s, x) ==> s[j] != x
        },
        first_pos(s, x) >= -1,
    decreases s.len(),
{
    if s.len() > 0 {
        let t = s.drop_first();
        lemma_first_pos(t, x);
        if s[0] != x {
            if s.contains(x) {
                let i = choose|i: int| 0 <= i < s.len() && s[i] == x;
                assert(t[i - 1] == x);
            }
            if t.contains(x) {
                let i = choose|i: int| 0 <= i < t.len() && t[i] == x;
                assert(s[i + 1] == x);
            }
            let p = first_pos(t, x);
            if p >= 0 {
                assert forall|j: int| 0 <= j < p + 1 implies s[j] != x by {
                    if j > 0 {
                        assert(s[j] == t[j - 1]);
                    }
                }
            }
        }
    }
}

/// The first occurrence of `x` is at `i` when `s[i] == x` and none comes before.
pub proof fn lemma_first_pos_at<A>(s: Seq<A>, x: A, i: int)
    requires
        0 <= i < s.len(),
        s[i] == x,
        forall|j: int| 0 <= j < i ==> s[j] != x,
    ensures
        first_pos(s, x) == i,
{
    lemma_first_pos(s, x);
    let p = first_pos(s, x);
    assert(p >= 0);
    if p < i {
        assert(s[p] != x);
    }
    if p > i {
        assert(s[i] != x);
    }
}

/// In a sequence without duplicates, `x` is found where it stands.
pub proof fn lemma_first_pos_unique<A>(s: Seq<A>, x: A, i: int)
    requires
        s.no_duplicates(),
        0 <= i < s.len(),
        s[i] == x,
    ensures
        first_pos(s, x) == i,
{
    assert forall|j: int| 0 <= j < i implies s[j] != x by {}
    lemma_first_pos_at(s, x, i);
}

/// The names of a sequence of named values.
pub open spec fn names<V>(t: Seq<(Seq<char>, V)>) -> Seq<Seq<char>> {
    t.map_values(|e: (Seq<char>, V)| e.0)
}

/// The position of the entry named `k` in `t`, or -1.
pub open spec fn find<V>(t: Seq<(Seq<char>, V)>, k: Seq<char>) -> int {
    first_pos(names(t), k)
}

/// The positions `find` gives are entries with that name.
pub proof fn lemma_find<V>(t: Seq<(Seq<char>, V)>, k: Seq<char>)
    ensures
        find(t, k) >= -1,
        find(t, k) < t.len(),
        find(t, k) >= 0 ==> t[find(t, k)].0 == k,
        find(t, k) == -1 ==> forall|j: int| 0 <= j < t.len() ==> t[j].0 != k,
{
    lemma_first_pos(names(t), k);
    if find(t, k) == -1 {
        assert forall|j: int| 0 <= j < t.len() implies t[j].0 != k by {
            assert(names(t)[j] == t[j].0);
        }
    }
}

/// An entry named `k` at `i`, in a table whose names are distinct, is what `find` gives.
pub proof fn lemma_find_at<V>(t: Seq<(Seq<char>, V)>, k: Seq<char>, i: int)
    requires
        names(t).no_duplicates(),
        0 <= i < t.len(),
        t[i].0 == k,
    ensures
        find(t, k) == i,
{
    lemma_first_pos_unique(names(t), k, i);
}

/// Replacing the value of an entry keeps every name where it was.
pub proof fn lemma_names_update<V>(t: Seq<(Seq<char>, V)>, p: int, v: V)
    requires
        0 <= p < t.len(),
    ensures
        names(t.update(p, (t[p].0, v))) == names(t),
{
    assert(names(t.update(p, (t[p].0, v))) =~= names(t));
}

/// Appending an entry appends its name.
pub proof fn lemma_names_push<V>(t: Seq<(Seq<char>, V)>, e: (Seq<char>, V))
    ensures
        names(t.push(e)) == names(t).push(e.0),
{
    assert(names(t.push(e)) =~= names(t).push(e.0));
}

/// Removing an entry removes its name.
pub proof fn lemma_names_remove<V>(t: Seq<(Seq<char>, V)>, p: int)
    requires
        0 <= p < t.len(),
    ensures
        names(t.remove(p)) == names(t).remove(p),
{
    assert(names(t.remove(p)) =~= names(t).remove(p));
}

/// The grades held for each name of a subject (or of a student).
pub type RowsModel = Seq<(Seq<char>, Seq<i8>)>;

/// Names mapped to their rows: subjects to students, or students to subjects.
pub type TableModel = Seq<(Seq<char>, RowsModel)>;

/// Distinct names, each with at least one grade.
pub open spec fn rows_wf(rows: RowsModel) -> bool {
    &&& names(rows).no_duplicates()
    &&& forall|i: int| 0 <= i < rows.len() ==> (#[trigger] rows[i]).1.len() > 0
}

/// Distinct names, each with at least one well-formed row.
pub open spec fn table_wf(t: TableModel) -> bool {
    &&& names(t).no_duplicates()
    &&& forall|i: int|
        0 <= i < t.len() ==> (#[trigger] t[i]).1.len() > 0 && rows_wf(t[i].1)
}

/// The grades of `b` within the rows, or none.
pub open spec fn row_lookup(rows: RowsModel, b: Seq<char>) -> Seq<i8> {
    let q = find(rows, b);
    if q < 0 {
        Seq::empty()
    } else {
        rows[q].1
    }
}

/// The grades of `b` under `a`, or none.
pub open spec fn lookup(t: TableModel, a: Seq<char>, b: Seq<char>) -> Seq<i8> {
    let p = find(t, a);
    if p < 0 {
        Seq::empty()
    } else {
        row_lookup(t[p].1, b)
    }
}

/// The rows after `g` is appended to the grades of `b` (a new row at the end
/// when `b` has none).
pub open spec fn rows_push(rows: RowsModel, b: Seq<char>, g: i8) -> RowsModel {
    let q = find(rows, b);
    if q >= 0 {
        rows.update(q, (b, rows[q].1.push(g)))
    } else {
        rows.push((b, seq![g]))
    }
}

/// The table after `g` is appended to the grades of `b` under `a` (a new
/// entry at the end when `a` has none).
pub open spec fn table_push(t: TableModel, a: Seq<char>, b: Seq<char>, g: i8) -> TableModel {
    let p = find(t, a);
    if p >= 0 {
        t.update(p, (a, rows_push(t[p].1, b, g)))
    } else {
        t.push((a, seq![(b, seq![g])]))
    }
}

/// `gs` without its first `g`.
pub open spec fn drop_grade(gs: Seq<i8>, g: i8) -> Seq<i8> {
    let i = first_pos(gs, g);
    if i >= 0 {
        gs.remove(i)
    } else {
        gs
    }
}

/// The rows after the first `g` of `b` is taken out; a row left without
/// grades is removed.
pub open spec fn rows_drop(rows: RowsModel, b: Seq<char>, g: i8) -> RowsModel {
    let q = find(rows, b);
    if q >= 0 {
        let gs = drop_grade(rows[q].1, g);
        if gs.len() == 0 {
            rows.remove(q)
        } else {
            rows.update(q, (b, gs))
        }
    } else {
        rows
    }
}

/// The table after the first `g` of `b` under `a` is taken out; rows and
/// entries left empty are removed.
pub open spec fn table_drop(t: TableModel, a: Seq<char>, b: Seq<char>, g: i8) -> TableModel {
    let p = find(t, a);
    if p >= 0 {
        let rs = rows_drop(t[p].1, b, g);
        if rs.len() == 0 {
            t.remove(p)
        } else {
            t.update(p, (a, rs))
        }
    } else {
        t
    }
}

/// Removing an entry keeps the names distinct.
pub proof fn lemma_remove_distinct<V>(t: Seq<(Seq<char>, V)>, p: int)
    requires
        names(t).no_duplicates(),
        0 <= p < t.len(),
    ensures
        names(t.remove(p)).no_duplicates(),
{
    let u = t.remove(p);
    lemma_names_remove(t, p);
    assert forall|i: int, j: int|
        0 <= i < names(u).len() && 0 <= j < names(u).len() && i != j implies names(u)[i]
        != names(u)[j] by {
        let i2 = if i < p {
            i
        } else {
            i + 1
        };
        let j2 = if j < p {
            j
        } else {
            j + 1
        };
        assert(names(u)[i] == names(t)[i2]);
        assert(names(u)[j] == names(t)[j2]);
    }
}

/// Where `x` lands after the entry at `p` is removed from a table with distinct names.
pub proof fn lemma_find_remove<V>(t: Seq<(Seq<char>, V)>, p: int, x: Seq<char>)
    requires
        names(t).no_duplicates(),
        0 <= p < t.len(),
    ensures
        find(t.remove(p), x) == (if x == t[p].0 || find(t, x) < 0 {
            -1
        } else if find(t, x) < p {
            find(t, x)
        } else {
            find(t, x) - 1
        }),
{
    let u = t.remove(p);
    lemma_remove_distinct(t, p);
    lemma_find(t, x);
    lemma_find(u, x);
    let q = find(t, x);
    if x == t[p].0 {
        if find(u, x) >= 0 {
            let r = find(u, x);
            let r2 = if r < p {
                r
            } else {
                r + 1
            };
            assert(u[r] == t[r2]);
            assert(names(t)[r2] == names(t)[p]);
        }
    } else if q >= 0 {
        let q2 = if q < p {
            q
        } else {
            q - 1
        };
        assert(u[q2] == t[q]);
        lemma_find_at(u, x, q2);
    } else {
        if find(u, x) >= 0 {
            let r = find(u, x);
            let r2 = if r < p {
                r
            } else {
                r + 1
            };
            assert(u[r] == t[r2]);
        }
    }
}

/// Appending `g` to the grades of `b` changes only those grades, and keeps
/// the rows well formed.
pub proof fn lemma_rows_push(rows: RowsModel, b: Seq<char>, g: i8, y: Seq<char>)
    requires
        rows_wf(rows),
    ensures
        rows_wf(rows_push(rows, b, g)),
        row_lookup(rows_push(rows, b, g), y) == if y == b {
            row_lookup(rows, y).push(g)
        } else {
            row_lookup(rows, y)
        },
{
    let r2 = rows_push(rows, b, g);
    let q = find(rows, b);
    lemma_find(rows, b);
    lemma_find(rows, y);
    if q >= 0 {
        lemma_names_update(rows, q, rows[q].1.push(g));
        assert(names(r2) == names(rows));
        assert(find(r2, y) == find(rows, y));
        assert forall|i: int| 0 <= i < r2.len() implies (#[trigger] r2[i]).1.len() > 0 by {
            if i != q {
                assert(r2[i] == rows[i]);
            }
        }
    } else {
        lemma_names_push(rows, (b, seq![g]));
        assert(names(r2).no_duplicates()) by {
            assert forall|i: int, j: int|
                0 <= i < names(r2).len() && 0 <= j < names(r2).len() && i != j implies names(
                r2,
            )[i] != names(r2)[j] by {
                if i < rows.len() {
                    assert(names(r2)[i] == rows[i].0);
                }
                if j < rows.len() {
                    assert(names(r2)[j] == rows[j].0);
                }
            }
        }
        assert forall|i: int| 0 <= i < r2.len() implies (#[trigger] r2[i]).1.len() > 0 by {
            if i < rows.len() {
                assert(r2[i] == rows[i]);
            }
        }
        if y == b {
            lemma_find_at(r2, y, rows.len() as int);
            assert(row_lookup(rows, y) =~= Seq::<i8>::empty());
            assert(seq![g] =~= Seq::<i8>::empty().push(g));
        } else {
            let f = find(rows, y);
            if f >= 0 {
                assert(r2[f] == rows[f]);
                lemma_find_at(r2, y, f);
            } else {
                lemma_find(r2, y);
                if find(r2, y) >= 0 {
                    let h = find(r2, y);
                    if h < rows.len() {
                        assert(r2[h] == rows[h]);
                    }
                }
            }
        }
    }
}


/// Appending `g` to the grades of `b` under `a` changes only those grades,
/// and keeps the table well formed.
pub proof fn lemma_table_push(t: TableModel, a: Seq<char>, b: Seq<char>, g: i8, x: Seq<char>, y: Seq<char>)
    requires
        table_wf(t),
    ensures
        table_wf(table_push(t, a, b, g)),
        lookup(table_push(t, a, b, g), x, y) == if x == a && y == b {
            lookup(t, x, y).push(g)
        } else {
            lookup(t, x, y)
        },
{
    let t2 = table_push(t, a, b, g);
    let p = find(t, a);
    lemma_find(t, a);
    lemma_find(t, x);
    if p >= 0 {
        lemma_rows_push(t[p].1, b, g, y);
        lemma_names_update(t, p, rows_push(t[p].1, b, g));
        assert(find(t2, x) == find(t, x));
        assert forall|i: int| 0 <= i < t2.len() implies (#[trigger] t2[i]).1.len() > 0 && rows_wf(
            t2[i].1,
        ) by {
            if i != p {
                assert(t2[i] == t[i]);
            } else {
                lemma_rows_push(t[p].1, b, g, b);
                assert(t2[i] == (a, rows_push(t[p].1, b, g)));
                lemma_find(t[p].1, b);
                assert(rows_push(t[p].1, b, g).len() >= t[p].1.len());
            }
        }
    } else {
        let e = (a, seq![(b, seq![g])]);
        lemma_names_push(t, e);
        assert(names(t2).no_duplicates()) by {
            assert forall|i: int, j: int|
                0 <= i < names(t2).len() && 0 <= j < names(t2).len() && i != j implies names(
                t2,
            )[i] != names(t2)[j] by {
                if i < t.len() {
                    assert(names(t2)[i] == t[i].0);
                }
                if j < t.len() {
                    assert(names(t2)[j] == t[j].0);
                }
            }
        }
        assert(rows_wf(e.1)) by {
            assert(names(e.1) =~= seq![b]);
        }
        assert forall|i: int| 0 <= i < t2.len() implies (#[trigger] t2[i]).1.len() > 0 && rows_wf(
            t2[i].1,
        ) by {
            if i < t.len() {
                assert(t2[i] == t[i]);
            }
        }
        if x == a {
            lemma_find_at(t2, x, t.len() as int);
            assert(names(e.1) =~= seq![b]);
            if y == b {
                lemma_find_at(e.1, y, 0);
                assert(seq![g] =~= Seq::<i8>::empty().push(g));
            } else {
                lemma_find(e.1, y);
            }
        } else {
            let f = find(t, x);
            if f >= 0 {
                assert(t2[f] == t[f]);
                lemma_find_at(t2, x, f);
            } else {
                lemma_find(t2, x);
                if find(t2, x) >= 0 {
                    let h = find(t2, x);
                    if h < t.len() {
                        assert(t2[h] == t[h]);
                    }
                }
            }
        }
    }
}

/// Taking out the first `g` of `b` changes only the grades of `b`, and
/// keeps the rows well formed.
pub proof fn lemma_rows_drop(rows: RowsModel, b: Seq<char>, g: i8, y: Seq<char>)
    requires
        rows_wf(rows),
    ensures
        rows_wf(rows_drop(rows, b, g)),
        row_lookup(rows_drop(rows, b, g), y) == if y == b {
            drop_grade(row_lookup(rows, y), g)
        } else {
            row_lookup(rows, y)
        },
{
    let r2 = rows_drop(rows, b, g);
    let q = find(rows, b);
    lemma_find(rows, b);
    lemma_find(rows, y);
    if q >= 0 {
        let gs = drop_grade(rows[q].1, g);
        if gs.len() == 0 {
            lemma_find_remove(rows, q, y);
            lemma_names_remove(rows, q);
            assert forall|i: int| 0 <= i < r2.len() implies (#[trigger] r2[i]).1.len() > 0 by {
                if i < q {
                    assert(r2[i] == rows[i]);
                } else {
                    assert(r2[i] == rows[i + 1]);
                }
            }
            if y == b {
                lemma_find(r2, y);
                if find(r2, y) >= 0 {
                    let h = find(r2, y);
                    if h < q {
                        assert(r2[h] == rows[h]);
                    } else {
                        assert(r2[h] == rows[h + 1]);
                    }
                    assert(names(rows)[h] == names(rows)[q]);
                }
                assert(gs =~= Seq::<i8>::empty());
            } else {
                let f = find(rows, y);
                if f >= 0 {
                    if f < q {
                        assert(r2[f] == rows[f]);
                    } else {
                        assert(r2[f - 1] == rows[f]);
                    }
                }
            }
        } else {
            lemma_names_update(rows, q, gs);
            assert(find(r2, y) == find(rows, y));
            assert forall|i: int| 0 <= i < r2.len() implies (#[trigger] r2[i]).1.len() > 0 by {
                if i != q {
                    assert(r2[i] == rows[i]);
                }
            }
        }
    } else {
        lemma_first_pos(Seq::<i8>::empty(), g);
    }
}

/// Taking out the first `g` of `b` under `a` changes only those grades,
/// and keeps the table well formed.
pub proof fn lemma_table_drop(t: TableModel, a: Seq<char>, b: Seq<char>, g: i8, x: Seq<char>, y: Seq<char>)
    requires
        table_wf(t),
    ensures
        table_wf(table_drop(t, a, b, g)),
        lookup(table_drop(t, a, b, g), x, y) == if x == a && y == b {
            drop_grade(lookup(t, x, y), g)
        } else {
            lookup(t, x, y)
        },
{
    let t2 = table_drop(t, a, b, g);
    let p = find(t, a);
    lemma_find(t, a);
    lemma_find(t, x);
    if p >= 0 {
        let rs = rows_drop(t[p].1, b, g);
        lemma_rows_drop(t[p].1, b, g, y);
        if rs.len() == 0 {
            lemma_find_remove(t, p, x);
            lemma_names_remove(t, p);
            assert forall|i: int| 0 <= i < t2.len() implies (#[trigger] t2[i]).1.len() > 0
                && rows_wf(t2[i].1) by {
                if i < p {
                    assert(t2[i] == t[i]);
                } else {
                    assert(t2[i] == t[i + 1]);
                }
            }
            if x == a {
                lemma_find(t2, x);
                if find(t2, x) >= 0 {
                    let h = find(t2, x);
                    if h < p {
                        assert(t2[h] == t[h]);
                    } else {
                        assert(t2[h] == t[h + 1]);
                    }
                    assert(names(t)[h] == names(t)[p]);
                }
                if y == b {
                    lemma_find(rs, y);
                } else {
                    lemma_find(rs, y);
                }
            } else {
                let f = find(t, x);
                if f >= 0 {
                    if f < p {
                        assert(t2[f] == t[f]);
                    } else {
                        assert(t2[f - 1] == t[f]);
                    }
                }
            }
        } else {
            lemma_names_update(t, p, rs);
            assert(find(t2, x) == find(t, x));
            assert forall|i: int| 0 <= i < t2.len() implies (#[trigger] t2[i]).1.len() > 0
                && rows_wf(t2[i].1) by {
                if i != p {
                    assert(t2[i] == t[i]);
                }
            }
        }
    } else {
        lemma_first_pos(Seq::<i8>::empty(), g);
    }
}

/// A name that is not in `t` is found at the end of `t` after it is
/// appended.
proof fn lemma_find_pushed<V>(t: Seq<(Seq<char>, V)>, e: (Seq<char>, V))
    requires
        find(t, e.0) < 0,
    ensures
        find(t.push(e), e.0) == t.len(),
{
    lemma_find(t, e.0);
    lemma_names_push(t, e);
    let u = t.push(e);
    assert forall|j: int| 0 <= j < t.len() implies names(u)[j] != e.0 by {
        assert(names(u)[j] == t[j].0);
    }
    assert(names(u)[t.len() as int] == e.0);
    lemma_first_pos_at(names(u), e.0, t.len() as int);
}

/// Appending `g` to the grades of `b` and taking the first `g` out again
/// gives back the rows, when `b` had no `g`.
pub proof fn lemma_rows_push_drop(rows: RowsModel, b: Seq<char>, g: i8)
    requires
        rows_wf(rows),
        !row_lookup(rows, b).contains(g),
    ensures
        rows_drop(rows_push(rows, b, g), b, g) == rows,
{
    lemma_find(rows, b);
    let q = find(rows, b);
    let pushed = rows_push(rows, b, g);
    if q >= 0 {
        let gs = rows[q].1;
        lemma_names_update(rows, q, gs.push(g));
        assert(names(pushed) == names(rows));
        assert(find(pushed, b) == q);
        lemma_first_pos(gs.push(g), g);
        assert(gs.push(g)[gs.len() as int] == g);
        assert forall|j: int| 0 <= j < gs.len() implies gs.push(g)[j] != g by {
            assert(gs.push(g)[j] == gs[j]);
        }
        lemma_first_pos_at(gs.push(g), g, gs.len() as int);
        assert(gs.push(g).remove(gs.len() as int) =~= gs);
        assert(rows[q] == (b, gs));
        assert(rows_drop(pushed, b, g) =~= rows);
    } else {
        lemma_find_pushed(rows, (b, seq![g]));
        lemma_first_pos_at(seq![g], g, 0);
        assert(seq![g].remove(0) =~= Seq::<i8>::empty());
        assert(pushed.remove(rows.len() as int) =~= rows);
    }
}

/// Appending `g` to the grades of `b` under `a` and taking the first `g`
/// out again gives back the table, when `b` had no `g` under `a`.
pub proof fn lemma_table_push_drop(t: TableModel, a: Seq<char>, b: Seq<char>, g: i8)
    requires
        table_wf(t),
        !lookup(t, a, b).contains(g),
    ensures
        table_drop(table_push(t, a, b, g), a, b, g) == t,
{
    lemma_find(t, a);
    let p = find(t, a);
    let pushed = table_push(t, a, b, g);
    if p >= 0 {
        let rows = t[p].1;
        lemma_rows_push_drop(rows, b, g);
        lemma_names_update(t, p, rows_push(rows, b, g));
        assert(find(pushed, a) == p);
        assert(t[p] == (a, rows));
        assert(table_drop(pushed, a, b, g) =~= t);
    } else {
        let row: RowsModel = seq![(b, seq![g])];
        lemma_find_pushed(t, (a, row));
        lemma_find_at(row, b, 0);
        lemma_first_pos_at(seq![g], g, 0);
        assert(seq![g].remove(0) =~= Seq::<i8>::empty());
        assert(row.remove(0) =~= Seq::<(Seq<char>, Seq<i8>)>::empty());
        assert(pushed.remove(t.len() as int) =~= t);
    }
}

} // verus!
