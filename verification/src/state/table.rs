//! What holds of any table keyed by an integer identifier: how a row is
//! found, and what pushing, replacing and removing a row do to later lookups.

use vstd::prelude::*;

verus! {

/// A row of a table, as the contracts see it.
pub trait Row: Sized {
    /// The row's primary key.
    spec fn key(self) -> int;
}

/// Where the row of key `id` stands in `rows`; with several such rows, the last.
pub open spec fn index_of<R: Row>(rows: Seq<R>, id: int) -> Option<int>
    decreases rows.len(),
{
    if rows.len() == 0 {
        None
    } else if rows.last().key() == id {
        Some(rows.len() - 1)
    } else {
        index_of(rows.drop_last(), id)
    }
}

/// The row of key `id` in `rows`; with several such rows, the last.
pub open spec fn find<R: Row>(rows: Seq<R>, id: int) -> Option<R> {
    match index_of(rows, id) {
        Some(i) => Some(rows[i]),
        None => None,
    }
}

/// The keys grow strictly along `rows`, so no key occurs twice.
pub open spec fn ascending<R: Row>(rows: Seq<R>) -> bool {
    forall|i: int, j: int|
        0 <= i < j < rows.len() ==> (#[trigger] rows[i]).key() < (#[trigger] rows[j]).key()
}

/// No key in `rows` is above `last`.
pub open spec fn bounded<R: Row>(rows: Seq<R>, last: int) -> bool {
    forall|i: int| 0 <= i < rows.len() ==> (#[trigger] rows[i]).key() <= last
}

/// `rows` with `row` in the place of the row that has its key.
pub open spec fn replaced<R: Row>(rows: Seq<R>, row: R) -> Seq<R> {
    match index_of(rows, row.key()) {
        Some(i) => rows.update(i, row),
        None => rows,
    }
}

/// `rows` without the row of key `id`.
pub open spec fn removed<R: Row>(rows: Seq<R>, id: int) -> Seq<R> {
    match index_of(rows, id) {
        Some(i) => rows.remove(i),
        None => rows,
    }
}

/// `index_of` answers with a position that holds the key, and with none only
/// where no row has it.
pub proof fn lemma_index_of<R: Row>(rows: Seq<R>, id: int)
    ensures
        match index_of(rows, id) {
            Some(i) => {
                &&& 0 <= i < rows.len()
                &&& rows[i].key() == id
                &&& forall|j: int| i < j < rows.len() ==> (#[trigger] rows[j]).key() != id
            },
            None => forall|j: int| 0 <= j < rows.len() ==> (#[trigger] rows[j]).key() != id,
        },
    decreases rows.len(),
{
    if rows.len() > 0 && rows.last().key() != id {
        lemma_index_of(rows.drop_last(), id);
        assert(forall|j: int| 0 <= j < rows.len() - 1 ==> rows[j] == rows.drop_last()[j]);
    }
}

/// In a table without repeated keys every row is found where it stands.
pub proof fn lemma_index_of_row<R: Row>(rows: Seq<R>, i: int)
    requires
        ascending(rows),
        0 <= i < rows.len(),
    ensures
        index_of(rows, rows[i].key()) == Some(i),
        find(rows, rows[i].key()) == Some(rows[i]),
{
    lemma_index_of(rows, rows[i].key());
    let j = index_of(rows, rows[i].key())->0;
    if j < i {
        assert(rows[j].key() < rows[i].key());
    } else if i < j {
        assert(rows[i].key() < rows[j].key());
    }
}

/// A row pushed at the end is found under its key; every other lookup is as before.
pub proof fn lemma_find_push<R: Row>(rows: Seq<R>, row: R, id: int)
    ensures
        find(rows.push(row), id) == if id == row.key() {
            Some(row)
        } else {
            find(rows, id)
        },
{
    assert(rows.push(row).drop_last() =~= rows);
    lemma_index_of(rows, id);
}

/// A row above every key keeps the table ascending when it is pushed.
pub proof fn lemma_ascending_push<R: Row>(rows: Seq<R>, row: R, last: int)
    requires
        ascending(rows),
        bounded(rows, last),
        last < row.key(),
    ensures
        ascending(rows.push(row)),
        bounded(rows.push(row), row.key()),
{
    let next = rows.push(row);
    assert forall|i: int, j: int| 0 <= i < j < next.len() implies (#[trigger] next[i]).key() < (
    #[trigger] next[j]).key() by {
        if j < rows.len() {
            assert(rows[i].key() < rows[j].key());
        } else {
            assert(rows[i].key() <= last);
        }
    }
    assert forall|i: int| 0 <= i < next.len() implies (#[trigger] next[i]).key() <= row.key() by {
        if i < rows.len() {
            assert(rows[i].key() <= last);
        }
    }
}

/// Replacing a row keeps the keys where they are.
pub proof fn lemma_replaced_keys<R: Row>(rows: Seq<R>, row: R)
    ensures
        replaced(rows, row).len() == rows.len(),
        forall|i: int|
            0 <= i < rows.len() ==> (#[trigger] replaced(rows, row)[i]).key() == rows[i].key(),
        forall|i: int|
            0 <= i < rows.len() ==> #[trigger] replaced(rows, row)[i] == if index_of(
                rows,
                row.key(),
            ) == Some(i) {
                row
            } else {
                rows[i]
            },
{
    lemma_index_of(rows, row.key());
}

/// Replacing a row keeps the table ascending and below its bound.
pub proof fn lemma_ascending_replaced<R: Row>(rows: Seq<R>, row: R, last: int)
    requires
        ascending(rows),
    ensures
        ascending(replaced(rows, row)),
        bounded(rows, last) ==> bounded(replaced(rows, row), last),
{
    lemma_replaced_keys(rows, row);
    let next = replaced(rows, row);
    assert forall|i: int, j: int| 0 <= i < j < next.len() implies (#[trigger] next[i]).key() < (
    #[trigger] next[j]).key() by {
        assert(rows[i].key() < rows[j].key());
    }
    if bounded(rows, last) {
        assert forall|i: int| 0 <= i < next.len() implies (#[trigger] next[i]).key() <= last by {
            assert(rows[i].key() <= last);
        }
    }
}

/// After a replacement the new row is found under its key, where a row had
/// that key; every other lookup is as before.
pub proof fn lemma_find_replaced<R: Row>(rows: Seq<R>, row: R, id: int)
    requires
        ascending(rows),
    ensures
        find(replaced(rows, row), id) == if id == row.key() && find(rows, id) is Some {
            Some(row)
        } else {
            find(rows, id)
        },
{
    lemma_replaced_keys(rows, row);
    lemma_ascending_replaced(rows, row, 0);
    let next = replaced(rows, row);
    lemma_index_of(rows, id);
    lemma_index_of(next, id);
    lemma_index_of(rows, row.key());
    match index_of(rows, id) {
        Some(i) => {
            assert(next[i].key() == id);
            lemma_index_of_row(next, i);
        },
        None => {
            if let Some(j) = index_of(next, id) {
                assert(rows[j].key() == next[j].key());
            }
        },
    }
}

/// Removing a row keeps the table ascending and below its bound.
pub proof fn lemma_ascending_removed<R: Row>(rows: Seq<R>, id: int, last: int)
    requires
        ascending(rows),
    ensures
        ascending(removed(rows, id)),
        bounded(rows, last) ==> bounded(removed(rows, id), last),
{
    lemma_index_of(rows, id);
    let next = removed(rows, id);
    if let Some(k) = index_of(rows, id) {
        assert forall|i: int, j: int| 0 <= i < j < next.len() implies (#[trigger] next[i]).key()
            < (#[trigger] next[j]).key() by {
            let a = if i < k { i } else { i + 1 };
            let b = if j < k { j } else { j + 1 };
            assert(next[i] == rows[a]);
            assert(next[j] == rows[b]);
            assert(rows[a].key() < rows[b].key());
        }
        if bounded(rows, last) {
            assert forall|i: int| 0 <= i < next.len() implies (#[trigger] next[i]).key()
                <= last by {
                let a = if i < k { i } else { i + 1 };
                assert(next[i] == rows[a]);
                assert(rows[a].key() <= last);
            }
        }
    }
}

/// After a removal the key is gone; every other lookup is as before.
pub proof fn lemma_find_removed<R: Row>(rows: Seq<R>, gone: int, id: int)
    requires
        ascending(rows),
    ensures
        find(removed(rows, gone), id) == if id == gone {
            None
        } else {
            find(rows, id)
        },
{
    lemma_ascending_removed(rows, gone, 0);
    let next = removed(rows, gone);
    lemma_index_of(rows, gone);
    lemma_index_of(rows, id);
    lemma_index_of(next, id);
    if let Some(k) = index_of(rows, gone) {
        if id == gone {
            if let Some(j) = index_of(next, id) {
                let b = if j < k { j } else { j + 1 };
                assert(next[j] == rows[b]);
                if b < k {
                    assert(rows[b].key() < rows[k].key());
                } else {
                    assert(rows[k].key() < rows[b].key());
                }
            }
        } else {
            match index_of(rows, id) {
                Some(i) => {
                    let a = if i < k { i } else { i - 1 };
                    assert(next[a] == rows[i]);
                    lemma_index_of_row(next, a);
                },
                None => {
                    if let Some(j) = index_of(next, id) {
                        let b = if j < k { j } else { j + 1 };
                        assert(next[j] == rows[b]);
                    }
                },
            }
        }
    }
}

/// Each row's key is below the next row's.
pub open spec fn stepwise<R: Row>(rows: Seq<R>) -> bool {
    forall|k: int| 0 <= k < rows.len() - 1 ==> (#[trigger] rows[k]).key() < rows[k + 1].key()
}

proof fn lemma_stepwise_pair<R: Row>(rows: Seq<R>, i: int, j: int)
    requires
        stepwise(rows),
        0 <= i < j < rows.len(),
    ensures
        rows[i].key() < rows[j].key(),
    decreases j - i,
{
    if i + 1 < j {
        lemma_stepwise_pair(rows, i, j - 1);
    }
    assert(rows[j - 1].key() < rows[j - 1 + 1].key());
}

/// A table is ascending exactly when each row's key is below the next row's.
pub proof fn lemma_stepwise_ascending<R: Row>(rows: Seq<R>)
    ensures
        stepwise(rows) == ascending(rows),
{
    if stepwise(rows) {
        assert forall|i: int, j: int| 0 <= i < j < rows.len() implies (#[trigger] rows[i]).key() < (
        #[trigger] rows[j]).key() by {
            lemma_stepwise_pair(rows, i, j);
        }
    }
    if ascending(rows) {
        assert forall|k: int| 0 <= k < rows.len() - 1 implies (#[trigger] rows[k]).key() < rows[k
            + 1].key() by {
            assert(rows[k].key() < rows[k + 1].key());
        }
    }
}

/// The last identifier that a table holding `rows` has handed out, as far as
/// the rows show: the key of the last row, and at least zero.
pub open spec fn last_key<R: Row>(rows: Seq<R>) -> int {
    if rows.len() > 0 && rows.last().key() > 0 {
        rows.last().key()
    } else {
        0
    }
}

/// An ascending table is bounded by the key of its last row.
pub proof fn lemma_ascending_bounded<R: Row>(rows: Seq<R>)
    requires
        ascending(rows),
    ensures
        bounded(rows, last_key(rows)),
{
    assert forall|i: int| 0 <= i < rows.len() implies (#[trigger] rows[i]).key() <= last_key(
        rows,
    ) by {
        if i < rows.len() - 1 {
            assert(rows[i].key() < rows[rows.len() - 1].key());
        }
    }
}

/// Filtering a sequence with one more element at its end keeps or drops
/// that element and leaves the rest of the result as it was.
pub proof fn lemma_filter_push<T>(s: Seq<T>, x: T, p: spec_fn(T) -> bool)
    ensures
        s.push(x).filter(p) == if p(x) {
            s.filter(p).push(x)
        } else {
            s.filter(p)
        },
{
    reveal(Seq::filter);
    assert(s.push(x).drop_last() =~= s);
}

/// A predicate that holds of every element of `s` filters nothing out.
pub proof fn lemma_filter_all<T>(s: Seq<T>, p: spec_fn(T) -> bool)
    requires
        forall|i: int| 0 <= i < s.len() ==> p(#[trigger] s[i]),
    ensures
        s.filter(p) == s,
    decreases s.len(),
{
    reveal(Seq::filter);
    if s.len() > 0 {
        assert forall|i: int| 0 <= i < s.drop_last().len() implies p(#[trigger] s.drop_last()[i]) by {
            assert(s.drop_last()[i] == s[i]);
        }
        lemma_filter_all(s.drop_last(), p);
        assert(p(s[s.len() - 1]));
        assert(s.drop_last().push(s.last()) =~= s);
    } else {
        assert(s.filter(p) =~= s);
    }
}

/// A filtered sequence holds the elements of the sequence that pass the
/// predicate, and no other.
pub proof fn lemma_filter_contains<T>(s: Seq<T>, p: spec_fn(T) -> bool, x: T)
    ensures
        s.filter(p).contains(x) <==> s.contains(x) && p(x),
    decreases s.len(),
{
    reveal(Seq::filter);
    if s.len() > 0 {
        let front = s.drop_last();
        lemma_filter_contains(front, p, x);
        lemma_filter_push(front, s.last(), p);
        assert(front.push(s.last()) =~= s);
        if s.contains(x) {
            let i = choose|i: int| 0 <= i < s.len() && s[i] == x;
            if i < front.len() {
                assert(front[i] == x);
            }
        }
        if front.contains(x) {
            let i = choose|i: int| 0 <= i < front.len() && front[i] == x;
            assert(s[i] == x);
        }
        let kept = front.filter(p);
        if p(s.last()) {
            let next = kept.push(s.last());
            if next.contains(x) {
                let i = choose|i: int| 0 <= i < next.len() && next[i] == x;
                if i < kept.len() {
                    assert(kept[i] == x);
                } else {
                    assert(s[s.len() - 1] == x);
                }
            }
            if kept.contains(x) {
                let i = choose|i: int| 0 <= i < kept.len() && kept[i] == x;
                assert(next[i] == x);
            }
            if x == s.last() {
                assert(next[kept.len() as int] == x);
            }
        }
    }
}

/// A sequence read back to front holds the same elements.
pub proof fn lemma_reverse_contains<T>(s: Seq<T>, x: T)
    ensures
        s.reverse().contains(x) <==> s.contains(x),
{
    if s.reverse().contains(x) {
        let i = choose|i: int| 0 <= i < s.reverse().len() && s.reverse()[i] == x;
        assert(s[s.len() - 1 - i] == x);
    }
    if s.contains(x) {
        let i = choose|i: int| 0 <= i < s.len() && s[i] == x;
        assert(s.reverse()[s.len() - 1 - i] == x);
    }
}

/// As many elements pass a predicate in a sequence read back to front as in
/// the sequence itself.
pub proof fn lemma_filter_reverse_len<T>(s: Seq<T>, p: spec_fn(T) -> bool)
    ensures
        s.reverse().filter(p).len() == s.filter(p).len(),
    decreases s.len(),
{
    reveal(Seq::filter);
    if s.len() > 0 {
        let front = s.drop_last();
        let head = seq![s.last()];
        lemma_filter_reverse_len(front, p);
        assert(s.reverse() =~= head + front.reverse());
        Seq::filter_distributes_over_add(head, front.reverse(), p);
        assert(head.drop_last() =~= Seq::<T>::empty());
        assert(head.drop_last().filter(p) =~= Seq::<T>::empty());
        assert(head.last() == s.last());
    } else {
        assert(s.reverse() =~= s);
    }
}

/// Two predicates that agree on every element of `s` filter it alike.
pub proof fn lemma_filter_agree<T>(s: Seq<T>, p: spec_fn(T) -> bool, q: spec_fn(T) -> bool)
    requires
        forall|i: int| 0 <= i < s.len() ==> p(#[trigger] s[i]) == q(s[i]),
    ensures
        s.filter(p) == s.filter(q),
    decreases s.len(),
{
    reveal(Seq::filter);
    if s.len() > 0 {
        assert forall|i: int| 0 <= i < s.drop_last().len() implies p(#[trigger] s.drop_last()[i])
            == q(s.drop_last()[i]) by {
            assert(s.drop_last()[i] == s[i]);
        }
        lemma_filter_agree(s.drop_last(), p, q);
        assert(p(s[s.len() - 1]) == q(s[s.len() - 1]));
    }
}

/// What a lookup finds in a filtered table: the row it found before, where
/// the predicate keeps that row.
pub open spec fn find_kept<R: Row>(rows: Seq<R>, p: spec_fn(R) -> bool, id: int) -> Option<R> {
    match find(rows, id) {
        Some(r) => if p(r) {
            Some(r)
        } else {
            None
        },
        None => None,
    }
}

/// In an ascending table, dropping the last row loses that row's key alone.
pub proof fn lemma_find_drop_last<R: Row>(rows: Seq<R>, id: int)
    requires
        ascending(rows),
        rows.len() > 0,
    ensures
        ascending(rows.drop_last()),
        find(rows.drop_last(), id) == if id == rows.last().key() {
            None
        } else {
            find(rows, id)
        },
{
    let front = rows.drop_last();
    assert forall|i: int, j: int| 0 <= i < j < front.len() implies (#[trigger] front[i]).key() < (
    #[trigger] front[j]).key() by {
        assert(rows[i].key() < rows[j].key());
    }
    lemma_index_of(front, id);
    if id == rows.last().key() {
        if let Some(i) = index_of(front, id) {
            assert(rows[i].key() < rows[rows.len() - 1].key());
        }
    }
}

/// Filtering an ascending table leaves it ascending, and a lookup finds what
/// it found before, where the predicate keeps it.
pub proof fn lemma_find_filter<R: Row>(rows: Seq<R>, p: spec_fn(R) -> bool)
    requires
        ascending(rows),
    ensures
        ascending(rows.filter(p)),
        forall|id: int| #[trigger] find(rows.filter(p), id) == find_kept(rows, p, id),
    decreases rows.len(),
{
    reveal(Seq::filter);
    if rows.len() > 0 {
        let front = rows.drop_last();
        let last = rows.last();
        lemma_find_drop_last(rows, last.key());
        lemma_find_filter(front, p);
        let sub = front.filter(p);
        assert forall|i: int| 0 <= i < sub.len() implies (#[trigger] sub[i]).key() < last.key() by {
            lemma_index_of_row(sub, i);
            assert(find(sub, sub[i].key()) == find_kept(front, p, sub[i].key()));
            lemma_index_of(front, sub[i].key());
            let j = index_of(front, sub[i].key())->0;
            assert(rows[j].key() < rows[rows.len() - 1].key());
        }
        if p(last) {
            let next = sub.push(last);
            assert forall|i: int, j: int| 0 <= i < j < next.len() implies (#[trigger] next[i]).key()
                < (#[trigger] next[j]).key() by {
                if j < sub.len() {
                    assert(sub[i].key() < sub[j].key());
                } else {
                    assert(sub[i].key() < last.key());
                }
            }
        }
        assert forall|id: int| #[trigger] find(rows.filter(p), id) == find_kept(rows, p, id) by {
            lemma_find_drop_last(rows, id);
            assert(find(sub, id) == find_kept(front, p, id));
            if p(last) {
                lemma_find_push(sub, last, id);
            }
            lemma_index_of(rows, id);
        }
    } else {
        assert(rows.filter(p) =~= rows);
    }
}

/// Changing rows without touching their keys leaves the table's order and the
/// places of its rows as they were.
pub proof fn lemma_find_map<R: Row>(rows: Seq<R>, f: spec_fn(R) -> R)
    requires
        forall|i: int| 0 <= i < rows.len() ==> f(#[trigger] rows[i]).key() == rows[i].key(),
    ensures
        ascending(rows) ==> ascending(rows.map_values(f)),
        forall|id: int| #[trigger]
            find(rows.map_values(f), id) == match find(rows, id) {
                Some(r) => Some(f(r)),
                None => None,
            },
    decreases rows.len(),
{
    let next = rows.map_values(f);
    if ascending(rows) {
        assert forall|i: int, j: int| 0 <= i < j < next.len() implies (#[trigger] next[i]).key() < (
        #[trigger] next[j]).key() by {
            assert(rows[i].key() < rows[j].key());
        }
    }
    assert forall|id: int| #[trigger]
        find(next, id) == match find(rows, id) {
            Some(r) => Some(f(r)),
            None => None,
        } by {
        lemma_index_of_map(rows, f, id);
        lemma_index_of(rows, id);
    }
}

proof fn lemma_index_of_map<R: Row>(rows: Seq<R>, f: spec_fn(R) -> R, id: int)
    requires
        forall|i: int| 0 <= i < rows.len() ==> f(#[trigger] rows[i]).key() == rows[i].key(),
    ensures
        index_of(rows.map_values(f), id) == index_of(rows, id),
    decreases rows.len(),
{
    if rows.len() > 0 {
        let front = rows.drop_last();
        assert(rows.map_values(f).drop_last() =~= front.map_values(f));
        assert(rows.map_values(f).last() == f(rows[rows.len() - 1]));
        assert forall|i: int| 0 <= i < front.len() implies f(#[trigger] front[i]).key()
            == front[i].key() by {
            assert(front[i] == rows[i]);
        }
        lemma_index_of_map(front, f, id);
    }
}

/// Two ascending tables in which every lookup finds the same are one table.
pub proof fn lemma_ascending_ext<R: Row>(a: Seq<R>, b: Seq<R>)
    requires
        ascending(a),
        ascending(b),
        forall|id: int| find(a, id) == find(b, id),
    ensures
        a == b,
    decreases a.len(),
{
    if a.len() == 0 {
        if b.len() > 0 {
            lemma_index_of_row(b, 0);
            assert(find(a, b[0].key()) == find(b, b[0].key()));
        }
        assert(a =~= b);
    } else {
        let last = a.last();
        lemma_index_of_row(a, a.len() - 1);
        assert(find(a, last.key()) == find(b, last.key()));
        lemma_index_of(b, last.key());
        let j = index_of(b, last.key())->0;
        if j < b.len() - 1 {
            let other = b[b.len() - 1];
            lemma_index_of_row(b, b.len() - 1);
            assert(find(a, other.key()) == find(b, other.key()));
            lemma_index_of(a, other.key());
            let i = index_of(a, other.key())->0;
            assert(b[j].key() < b[b.len() - 1].key());
            if i < a.len() - 1 {
                assert(a[i].key() < a[a.len() - 1].key());
            }
        }
        assert(b.last() == last);
        assert forall|id: int| find(a.drop_last(), id) == find(b.drop_last(), id) by {
            lemma_find_drop_last(a, id);
            lemma_find_drop_last(b, id);
            assert(find(a, id) == find(b, id));
        }
        lemma_find_drop_last(a, 0);
        lemma_find_drop_last(b, 0);
        lemma_ascending_ext(a.drop_last(), b.drop_last());
        assert(a =~= a.drop_last().push(last));
        assert(b =~= b.drop_last().push(last));
    }
}

} // verus!
