//! A table of texts: one value per owner and key.

use crate::sort::merge_sort;
use crate::text::{chars_of, str_eq, str_lt};
use crate::{sort, text};
use vstd::prelude::*;

verus! {

/// One row of a table. A row without an owner is shared by everybody.
#[derive(Debug, PartialEq)]
pub struct Row {
    pub owner: Option<i64>,
    pub key: String,
    pub value: String,
}

impl Clone for Row {
    fn clone(&self) -> (r: Self)
        ensures
            r == *self,
    {
        Row { owner: self.owner, key: self.key.clone(), value: self.value.clone() }
    }
}

/// A key and its value.
#[derive(Debug, PartialEq)]
pub struct Pair {
    pub key: String,
    pub value: String,
}

/// A table of texts.
#[derive(Debug, PartialEq)]
pub struct TextTable {
    rows: Vec<Row>,
}

/// What a row stands under.
pub open spec fn row_key(r: Row) -> (Option<i64>, Seq<char>) {
    (r.owner, r.key@)
}

/// No two rows stand under the same owner and key.
pub open spec fn unique_keys(rows: Seq<Row>) -> bool {
    forall|i: int, j: int|
        0 <= i < rows.len() && 0 <= j < rows.len() && i != j ==> row_key(#[trigger] rows[i])
            != row_key(#[trigger] rows[j])
}

/// What a row stands under and what it holds.
pub open spec fn row_view(r: Row) -> ((Option<i64>, Seq<char>), Seq<char>) {
    (row_key(r), r.value@)
}

/// What rows stand under and what they hold, in their order.
pub open spec fn row_views(rows: Seq<Row>) -> Seq<((Option<i64>, Seq<char>), Seq<char>)> {
    rows.map_values(|r: Row| row_view(r))
}

/// Some row stands under `k`.
pub open spec fn has_row(
    s: Seq<((Option<i64>, Seq<char>), Seq<char>)>,
    k: (Option<i64>, Seq<char>),
) -> bool {
    exists|i: int| 0 <= i < s.len() && (#[trigger] s[i]).0 == k
}

/// Rows after `v` was written under `k`: in the place of the old value where
/// there is one, else behind the other rows.
pub open spec fn put_row(
    s: Seq<((Option<i64>, Seq<char>), Seq<char>)>,
    k: (Option<i64>, Seq<char>),
    v: Seq<char>,
) -> Seq<((Option<i64>, Seq<char>), Seq<char>)> {
    if has_row(s, k) {
        Seq::new(
            s.len(),
            |i: int|
                if s[i].0 == k {
                    (k, v)
                } else {
                    s[i]
                },
        )
    } else {
        s.push((k, v))
    }
}

/// Rows without the one under `k`, the others in their order.
pub open spec fn without_row(
    s: Seq<((Option<i64>, Seq<char>), Seq<char>)>,
    k: (Option<i64>, Seq<char>),
) -> Seq<((Option<i64>, Seq<char>), Seq<char>)>
    decreases s.len(),
{
    if s.len() == 0 {
        s
    } else if s.last().0 == k {
        without_row(s.drop_last(), k)
    } else {
        without_row(s.drop_last(), k).push(s.last())
    }
}

proof fn lemma_without_absent(
    s: Seq<((Option<i64>, Seq<char>), Seq<char>)>,
    k: (Option<i64>, Seq<char>),
)
    requires
        forall|j: int| 0 <= j < s.len() ==> (#[trigger] s[j]).0 != k,
    ensures
        without_row(s, k) == s,
    decreases s.len(),
{
    if s.len() > 0 {
        assert(s[s.len() - 1].0 != k);
        lemma_without_absent(s.drop_last(), k);
        assert(s.drop_last().push(s.last()) =~= s);
    }
}

proof fn lemma_without_one(
    s: Seq<((Option<i64>, Seq<char>), Seq<char>)>,
    k: (Option<i64>, Seq<char>),
    i: int,
)
    requires
        0 <= i < s.len(),
        s[i].0 == k,
        forall|j: int| 0 <= j < s.len() && j != i ==> (#[trigger] s[j]).0 != k,
    ensures
        without_row(s, k) == s.remove(i),
    decreases s.len(),
{
    let front = s.drop_last();
    if i == s.len() - 1 {
        lemma_without_absent(front, k);
        assert(front =~= s.remove(i));
    } else {
        assert(s[s.len() - 1].0 != k);
        lemma_without_one(front, k, i);
        assert(front.remove(i).push(s.last()) =~= s.remove(i));
    }
}

/// The values of `rows` by owner and key.
pub open spec fn row_map(rows: Seq<Row>) -> Map<(Option<i64>, Seq<char>), Seq<char>>
    decreases rows.len(),
{
    if rows.len() == 0 {
        Map::empty()
    } else {
        row_map(rows.drop_last()).insert(row_key(rows.last()), rows.last().value@)
    }
}

/// The rows of one owner, in the order of the table.
pub open spec fn owned(rows: Seq<Row>, owner: Option<i64>) -> Seq<Row>
    decreases rows.len(),
{
    if rows.len() == 0 {
        rows
    } else if rows.last().owner == owner {
        owned(rows.drop_last(), owner).push(rows.last())
    } else {
        owned(rows.drop_last(), owner)
    }
}

/// The order of rows by key.
pub open spec fn key_order() -> spec_fn(Row, Row) -> bool {
    |a: Row, b: Row| text::text_lt(a.key@, b.key@)
}

proof fn lemma_row_map(rows: Seq<Row>)
    requires
        unique_keys(rows),
    ensures
        forall|i: int|
            0 <= i < rows.len() ==> row_map(rows).contains_key(row_key(#[trigger] rows[i]))
                && row_map(rows)[row_key(rows[i])] == rows[i].value@,
        forall|k: (Option<i64>, Seq<char>)| #[trigger]
            row_map(rows).contains_key(k) ==> exists|i: int|
                0 <= i < rows.len() && row_key(#[trigger] rows[i]) == k,
    decreases rows.len(),
{
    if rows.len() > 0 {
        let front = rows.drop_last();
        assert(unique_keys(front)) by {
            assert forall|i: int, j: int|
                0 <= i < front.len() && 0 <= j < front.len() && i != j implies row_key(
                #[trigger] front[i],
            ) != row_key(#[trigger] front[j]) by {
                assert(front[i] == rows[i] && front[j] == rows[j]);
            }
        }
        lemma_row_map(front);
        assert forall|i: int| 0 <= i < rows.len() implies row_map(rows).contains_key(
            row_key(#[trigger] rows[i]),
        ) && row_map(rows)[row_key(rows[i])] == rows[i].value@ by {
            if i < front.len() {
                assert(front[i] == rows[i]);
                assert(row_key(rows[i]) != row_key(rows[rows.len() - 1]));
            }
        }
        assert forall|k: (Option<i64>, Seq<char>)| #[trigger]
            row_map(rows).contains_key(k) implies exists|i: int|
            0 <= i < rows.len() && row_key(#[trigger] rows[i]) == k by {
            if k == row_key(rows.last()) {
                assert(row_key(rows[rows.len() - 1]) == k);
            } else {
                assert(row_map(front).contains_key(k));
                let i = choose|i: int| 0 <= i < front.len() && row_key(#[trigger] front[i]) == k;
                assert(rows[i] == front[i]);
            }
        }
    }
}

/// The order of rows by key is a strict weak order.
proof fn lemma_key_order()
    ensures
        sort::strict_weak_order(key_order()),
{
    let lt = key_order();
    assert forall|a: Row| !#[trigger] lt(a, a) by {
        text::lemma_text_lt_irreflexive(a.key@);
    }
    assert forall|a: Row, b: Row, c: Row| #[trigger]
        lt(a, b) && #[trigger] lt(b, c) implies lt(a, c) by {
        text::lemma_text_lt_transitive(a.key@, b.key@, c.key@);
    }
    assert forall|a: Row, b: Row, c: Row|
        !#[trigger] lt(a, b) && !#[trigger] lt(b, c) implies !lt(a, c) by {
        if lt(a, c) {
            text::lemma_text_lt_total(a.key@, b.key@);
            text::lemma_text_lt_total(b.key@, c.key@);
            if a.key@ != b.key@ {
                text::lemma_text_lt_transitive(b.key@, a.key@, c.key@);
            }
        }
    }
}

/// `pairs` shows the keys and values of `rows`.
pub open spec fn shows_rows(pairs: Seq<Pair>, rows: Seq<Row>) -> bool {
    &&& pairs.len() == rows.len()
    &&& forall|i: int|
        0 <= i < pairs.len() ==> (#[trigger] pairs[i]).key@ == rows[i].key@ && pairs[i].value@
            == rows[i].value@
}

impl View for TextTable {
    type V = Map<(Option<i64>, Seq<char>), Seq<char>>;

    closed spec fn view(&self) -> Map<(Option<i64>, Seq<char>), Seq<char>> {
        row_map(self.rows@)
    }
}

impl TextTable {
    pub closed spec fn wf(self) -> bool {
        unique_keys(self.rows@)
    }

    /// The rows in the order of the table.
    pub closed spec fn rows(self) -> Seq<Row> {
        self.rows@
    }

    /// The table holds what its rows say, each key once.
    pub proof fn lemma_rows(self)
        requires
            self.wf(),
        ensures
            unique_keys(self.rows()),
            self@ == row_map(self.rows()),
    {
    }

    /// A table without rows.
    pub fn new() -> (r: Self)
        ensures
            r.wf(),
            r@ == Map::<(Option<i64>, Seq<char>), Seq<char>>::empty(),
            r.rows() == Seq::<Row>::empty(),
    {
        TextTable { rows: Vec::new() }
    }

    /// The place of the row under `owner` and `key`.
    fn find(&self, owner: Option<i64>, key: &str) -> (r: Option<usize>)
        requires
            self.wf(),
        ensures
            match r {
                Some(i) => i < self.rows@.len() && row_key(self.rows@[i as int]) == (owner, key@)
                    && self@.contains_key((owner, key@)) && self@[(owner, key@)]
                    == self.rows@[i as int].value@,
                None => !self@.contains_key((owner, key@)) && forall|j: int|
                    0 <= j < self.rows@.len() ==> row_key(#[trigger] self.rows@[j]) != (
                        owner,
                        key@,
                    ),
            },
    {
        proof {
            lemma_row_map(self.rows@);
        }
        let mut i: usize = 0;
        while i < self.rows.len()
            invariant
                i <= self.rows@.len(),
                self.wf(),
                forall|k: int|
                    0 <= k < self.rows@.len() ==> self@.contains_key(
                        row_key(#[trigger] self.rows@[k]),
                    ) && self@[row_key(self.rows@[k])] == self.rows@[k].value@,
                forall|j: int| 0 <= j < i ==> row_key(#[trigger] self.rows@[j]) != (owner, key@),
            decreases self.rows@.len() - i,
        {
            if self.rows[i].owner == owner && str_eq(self.rows[i].key.as_str(), key) {
                return Some(i);
            }
            i = i + 1;
        }
        None
    }

    /// The value under `owner` and `key`.
    pub fn get(&self, owner: Option<i64>, key: &str) -> (r: Option<String>)
        requires
            self.wf(),
        ensures
            match r {
                Some(v) => self@.contains_key((owner, key@)) && v@ == self@[(owner, key@)],
                None => !self@.contains_key((owner, key@)),
            },
    {
        match self.find(owner, key) {
            Some(i) => Some(self.rows[i].value.clone()),
            None => None,
        }
    }

    /// Writes `value` under `owner` and `key`, in the place of the old value
    /// where there is one, else behind the other rows.
    pub fn set(&mut self, owner: Option<i64>, key: &str, value: &str)
        requires
            old(self).wf(),
        ensures
            final(self).wf(),
            final(self)@ == old(self)@.insert((owner, key@), value@),
            row_views(final(self).rows()) == put_row(
                row_views(old(self).rows()),
                (owner, key@),
                value@,
            ),
    {
        let ghost before = self.rows@;
        proof {
            lemma_row_map(before);
        }
        match self.find(owner, key) {
            Some(i) => {
                self.rows[i].value = value.to_owned();
                proof {
                    let after = self.rows@;
                    assert forall|a: int, b: int|
                        0 <= a < after.len() && 0 <= b < after.len() && a != b implies row_key(
                        #[trigger] after[a],
                    ) != row_key(#[trigger] after[b]) by {
                        assert(row_key(after[a]) == row_key(before[a]));
                        assert(row_key(after[b]) == row_key(before[b]));
                    }
                    lemma_row_map(after);
                    assert forall|k: (Option<i64>, Seq<char>)|
                        #![auto]
                        row_map(after).contains_key(k) == row_map(before).insert(
                            (owner, key@),
                            value@,
                        ).contains_key(k) by {
                        if row_map(after).contains_key(k) {
                            let j = choose|j: int|
                                0 <= j < after.len() && row_key(#[trigger] after[j]) == k;
                            assert(row_key(before[j]) == k);
                        }
                        if row_map(before).contains_key(k) {
                            let j = choose|j: int|
                                0 <= j < before.len() && row_key(#[trigger] before[j]) == k;
                            assert(row_key(after[j]) == k);
                        }
                        assert(row_key(after[i as int]) == (owner, key@));
                    }
                    assert forall|k: (Option<i64>, Seq<char>)|
                        row_map(after).contains_key(k) implies #[trigger] row_map(after)[k]
                        == row_map(before).insert((owner, key@), value@)[k] by {
                        let j = choose|j: int|
                            0 <= j < after.len() && row_key(#[trigger] after[j]) == k;
                        assert(row_key(before[j]) == k);
                        if j == i {
                        } else {
                            assert(after[j] == before[j]);
                            assert(row_key(before[j]) != row_key(before[i as int]));
                        }
                    }
                    assert(row_map(after) =~= row_map(before).insert((owner, key@), value@));
                    assert(row_views(before)[i as int].0 == (owner, key@));
                    assert forall|j: int| 0 <= j < before.len() && j != i implies #[trigger]
                        row_views(before)[j].0 != (owner, key@) by {
                        assert(row_key(before[j]) != row_key(before[i as int]));
                    }
                    assert(row_views(after) =~= put_row(
                        row_views(before),
                        (owner, key@),
                        value@,
                    ));
                }
            },
            None => {
                let row = Row { owner, key: key.to_owned(), value: value.to_owned() };
                self.rows.push(row);
                proof {
                    let after = self.rows@;
                    assert(after.drop_last() =~= before);
                    assert forall|a: int, b: int|
                        0 <= a < after.len() && 0 <= b < after.len() && a != b implies row_key(
                        #[trigger] after[a],
                    ) != row_key(#[trigger] after[b]) by {
                        if a < before.len() {
                            assert(after[a] == before[a]);
                        }
                        if b < before.len() {
                            assert(after[b] == before[b]);
                        }
                    }
                    assert forall|j: int| 0 <= j < before.len() implies #[trigger] row_views(
                        before,
                    )[j].0 != (owner, key@) by {
                        assert(row_key(before[j]) != (owner, key@));
                    }
                    assert(row_views(after) =~= row_views(before).push(((owner, key@), value@)));
                }
            },
        }
    }

    /// Removes the value under `owner` and `key`.
    pub fn remove(&mut self, owner: Option<i64>, key: &str)
        requires
            old(self).wf(),
        ensures
            final(self).wf(),
            final(self)@ == old(self)@.remove((owner, key@)),
            row_views(final(self).rows()) == without_row(
                row_views(old(self).rows()),
                (owner, key@),
            ),
    {
        let ghost before = self.rows@;
        proof {
            lemma_row_map(before);
        }
        match self.find(owner, key) {
            None => {
                proof {
                    assert(row_map(before).remove((owner, key@)) =~= row_map(before));
                    lemma_without_absent(row_views(before), (owner, key@));
                }
            },
            Some(i) => {
                self.rows.remove(i);
                proof {
                    let after = self.rows@;
                    assert(after =~= before.remove(i as int));
                    assert forall|a: int, b: int|
                        0 <= a < after.len() && 0 <= b < after.len() && a != b implies row_key(
                        #[trigger] after[a],
                    ) != row_key(#[trigger] after[b]) by {
                        let a0 = if a < i {
                            a
                        } else {
                            a + 1
                        };
                        let b0 = if b < i {
                            b
                        } else {
                            b + 1
                        };
                        assert(after[a] == before[a0] && after[b] == before[b0]);
                    }
                    lemma_row_map(after);
                    assert forall|k: (Option<i64>, Seq<char>)|
                        #![auto]
                        row_map(after).contains_key(k) == row_map(before).remove(
                            (owner, key@),
                        ).contains_key(k) by {
                        if row_map(after).contains_key(k) {
                            let j = choose|j: int|
                                0 <= j < after.len() && row_key(#[trigger] after[j]) == k;
                            let j0 = if j < i {
                                j
                            } else {
                                j + 1
                            };
                            assert(after[j] == before[j0]);
                            assert(row_key(before[j0]) != row_key(before[i as int]));
                        }
                        if row_map(before).contains_key(k) && k != (owner, key@) {
                            let j = choose|j: int|
                                0 <= j < before.len() && row_key(#[trigger] before[j]) == k;
                            let j1 = if j < i {
                                j
                            } else {
                                j - 1
                            };
                            assert(after[j1] == before[j]);
                        }
                    }
                    assert forall|k: (Option<i64>, Seq<char>)|
                        row_map(after).contains_key(k) implies #[trigger] row_map(after)[k]
                        == row_map(before).remove((owner, key@))[k] by {
                        let j = choose|j: int|
                            0 <= j < after.len() && row_key(#[trigger] after[j]) == k;
                        let j0 = if j < i {
                            j
                        } else {
                            j + 1
                        };
                        assert(after[j] == before[j0]);
                    }
                    assert(row_map(after) =~= row_map(before).remove((owner, key@)));
                    assert forall|j: int| 0 <= j < before.len() && j != i implies (
                    #[trigger] row_views(before)[j]).0 != (owner, key@) by {
                        assert(row_key(before[j]) != row_key(before[i as int]));
                    }
                    lemma_without_one(row_views(before), (owner, key@), i as int);
                    assert(row_views(after) =~= row_views(before).remove(i as int));
                }
            },
        }
    }

    /// The rows of one owner, in the order of the table.
    pub fn rows_of(&self, owner: Option<i64>) -> (r: Vec<Row>)
        requires
            self.wf(),
        ensures
            r@ == owned(self.rows(), owner),
    {
        let mut out: Vec<Row> = Vec::new();
        let mut i: usize = 0;
        while i < self.rows.len()
            invariant
                i <= self.rows@.len(),
                out@ == owned(self.rows@.subrange(0, i as int), owner),
            decreases self.rows@.len() - i,
        {
            assert(self.rows@.subrange(0, i + 1).drop_last() =~= self.rows@.subrange(0, i as int));
            if self.rows[i].owner == owner {
                out.push(self.rows[i].clone());
            }
            i = i + 1;
        }
        assert(self.rows@.subrange(0, i as int) =~= self.rows@);
        out
    }

    /// All rows, in the order of the table.
    pub fn all_rows(&self) -> (r: &Vec<Row>)
        ensures
            r@ == self.rows(),
    {
        &self.rows
    }

    /// The keys and values of one owner, in the order of the keys.
    pub fn pairs_by_key(&self, owner: Option<i64>) -> (r: Vec<Pair>)
        requires
            self.wf(),
        ensures
            shows_rows(r@, sort::sorted(owned(self.rows(), owner), key_order())),
    {
        proof {
            lemma_key_order();
        }
        let less = |a: &Row, b: &Row| -> (r: bool)
            ensures
                r == text::text_lt(a.key@, b.key@),
            {
                let x: Vec<char> = chars_of(a.key.as_str());
                let y: Vec<char> = chars_of(b.key.as_str());
                str_lt(&x, &y)
            };
        let rows: Vec<Row> = merge_sort(self.rows_of(owner), &less, Ghost(key_order()));
        let mut out: Vec<Pair> = Vec::new();
        let mut i: usize = 0;
        while i < rows.len()
            invariant
                i <= rows@.len(),
                out@.len() == i,
                forall|j: int|
                    0 <= j < i ==> (#[trigger] out@[j]).key@ == rows@[j].key@ && out@[j].value@
                        == rows@[j].value@,
            decreases rows@.len() - i,
        {
            out.push(Pair { key: rows[i].key.clone(), value: rows[i].value.clone() });
            i = i + 1;
        }
        out
    }
}

/// A value that was written is read back, and no other value changes.
pub proof fn law_set_then_get(
    m: Map<(Option<i64>, Seq<char>), Seq<char>>,
    k: (Option<i64>, Seq<char>),
    v: Seq<char>,
    other: (Option<i64>, Seq<char>),
)
    ensures
        m.insert(k, v).contains_key(k),
        m.insert(k, v)[k] == v,
        other != k ==> m.insert(k, v).contains_key(other) == m.contains_key(other),
        other != k && m.contains_key(other) ==> m.insert(k, v)[other] == m[other],
{
}

/// Each row of an owner holds the value that the table has under its key, and
/// no two of them have the same key.
pub proof fn lemma_owned(rows: Seq<Row>, owner: Option<i64>)
    requires
        unique_keys(rows),
    ensures
        forall|i: int|
            0 <= i < owned(rows, owner).len() ==> row_map(rows).contains_key(
                (owner, (#[trigger] owned(rows, owner)[i]).key@),
            ) && row_map(rows)[(owner, owned(rows, owner)[i].key@)] == owned(rows, owner)[i].value@,
        forall|i: int, j: int|
            0 <= i < j < owned(rows, owner).len() ==> (#[trigger] owned(rows, owner)[i]).key@ != (
            #[trigger] owned(rows, owner)[j]).key@,
    decreases rows.len(),
{
    if rows.len() > 0 {
        let front = rows.drop_last();
        assert(unique_keys(front)) by {
            assert forall|i: int, j: int|
                0 <= i < front.len() && 0 <= j < front.len() && i != j implies row_key(
                #[trigger] front[i],
            ) != row_key(#[trigger] front[j]) by {
                assert(front[i] == rows[i] && front[j] == rows[j]);
            }
        }
        lemma_owned(front, owner);
        lemma_row_map(front);
        let o = owned(rows, owner);
        let o1 = owned(front, owner);
        let last = row_key(rows.last());
        assert(!row_map(front).contains_key(last)) by {
            if row_map(front).contains_key(last) {
                let i = choose|i: int| 0 <= i < front.len() && row_key(#[trigger] front[i]) == last;
                assert(front[i] == rows[i]);
                assert(row_key(rows[i]) != row_key(rows[rows.len() - 1]));
            }
        }
        assert forall|i: int| 0 <= i < o1.len() implies o[i] == #[trigger] o1[i] && (
            owner,
            o1[i].key@,
        ) != last by {
            assert(row_map(front).contains_key((owner, o1[i].key@)));
        }
        assert forall|i: int| 0 <= i < o.len() implies row_map(rows).contains_key(
            (owner, (#[trigger] o[i]).key@),
        ) && row_map(rows)[(owner, o[i].key@)] == o[i].value@ by {
            if i < o1.len() {
                assert(o[i] == o1[i]);
            }
        }
        assert forall|i: int, j: int| 0 <= i < j < o.len() implies (#[trigger] o[i]).key@ != (
        #[trigger] o[j]).key@ by {
            assert(o[i] == o1[i]);
            if j < o1.len() {
                assert(o[j] == o1[j]);
            }
        }
    }
}

/// Which rows an owner has, and what the table holds, depends on what the rows
/// tell alone.
pub proof fn lemma_views_decide(a: Seq<Row>, b: Seq<Row>, owner: Option<i64>)
    requires
        row_views(a) == row_views(b),
    ensures
        row_map(a) == row_map(b),
        row_views(owned(a, owner)) == row_views(owned(b, owner)),
    decreases a.len(),
{
    assert(a.len() == row_views(a).len() && b.len() == row_views(b).len());
    if a.len() > 0 {
        let n = a.len() - 1;
        assert(row_views(a)[n] == row_view(a[n]));
        assert(row_views(b)[n] == row_view(b[n]));
        assert(row_views(a.drop_last()) =~= row_views(a).drop_last());
        assert(row_views(b.drop_last()) =~= row_views(b).drop_last());
        lemma_views_decide(a.drop_last(), b.drop_last(), owner);
        if a.last().owner == owner {
            let x = owned(a.drop_last(), owner);
            let y = owned(b.drop_last(), owner);
            assert(row_views(x.push(a.last())) =~= row_views(x).push(row_view(a.last())));
            assert(row_views(y.push(b.last())) =~= row_views(y).push(row_view(b.last())));
        }
    } else {
        assert(a =~= b);
    }
}

/// The rows of an owner in the order of their keys are rows that the table
/// holds.
pub proof fn lemma_listed(rows: Seq<Row>, owner: Option<i64>, i: int)
    requires
        unique_keys(rows),
        0 <= i < sort::sorted(owned(rows, owner), key_order()).len(),
    ensures
        row_map(rows).contains_key(
            (owner, sort::sorted(owned(rows, owner), key_order())[i].key@),
        ),
{
    let mine = owned(rows, owner);
    let all = sort::sorted(mine, key_order());
    sort::law_sort_permutes(mine, key_order());
    assert(all.to_multiset().contains(all[i])) by {
        vstd::seq_lib::to_multiset_contains(all, all[i]);
    }
    vstd::seq_lib::to_multiset_contains(mine, all[i]);
    let j = choose|j: int| 0 <= j < mine.len() && mine[j] == all[i];
    lemma_owned(rows, owner);
    assert(mine[j].key@ == all[i].key@);
}

/// The rows of an owner are those under which the table holds its values.
pub proof fn law_owned_rows(rows: Seq<Row>, owner: Option<i64>, key: Seq<char>)
    requires
        unique_keys(rows),
    ensures
        row_map(rows).contains_key((owner, key)) <==> exists|i: int|
            0 <= i < owned(rows, owner).len() && (#[trigger] owned(rows, owner)[i]).key@ == key,
    decreases rows.len(),
{
    if rows.len() > 0 {
        let front = rows.drop_last();
        assert(unique_keys(front)) by {
            assert forall|i: int, j: int|
                0 <= i < front.len() && 0 <= j < front.len() && i != j implies row_key(
                #[trigger] front[i],
            ) != row_key(#[trigger] front[j]) by {
                assert(front[i] == rows[i] && front[j] == rows[j]);
            }
        }
        law_owned_rows(front, owner, key);
        let o = owned(rows, owner);
        let o1 = owned(front, owner);
        if row_map(rows).contains_key((owner, key)) {
            if row_key(rows.last()) == (owner, key) {
                assert(o[o.len() - 1].key@ == key);
            } else {
                let i = choose|i: int| 0 <= i < o1.len() && (#[trigger] o1[i]).key@ == key;
                assert(o[i] == o1[i]);
            }
        }
        if exists|i: int| 0 <= i < o.len() && (#[trigger] o[i]).key@ == key {
            let i = choose|i: int| 0 <= i < o.len() && (#[trigger] o[i]).key@ == key;
            if i < o1.len() {
                assert(o1[i] == o[i]);
            }
        }
    }
}

/// A table answers with what was set last under a key, and not at all for a key
/// that was removed; other keys are not touched by either.
pub proof fn law_tables_keep_what_is_set(
    owner: Option<i64>,
    key: &str,
    value: &str,
    other: (Option<i64>, Seq<char>),
)
    ensures
        forall|t: &mut TextTable|
            #[trigger] call_ensures(TextTable::set, (t, owner, key, value), ()) ==> {
                &&& final(t)@.contains_key((owner, key@)) && final(t)@[(owner, key@)] == value@
                &&& other != (owner, key@) ==> final(t)@.contains_key(other) == t@.contains_key(
                    other,
                ) && (t@.contains_key(other) ==> final(t)@[other] == t@[other])
            },
        forall|t: &mut TextTable|
            #[trigger] call_ensures(TextTable::remove, (t, owner, key), ()) ==> {
                &&& !final(t)@.contains_key((owner, key@))
                &&& other != (owner, key@) ==> final(t)@.contains_key(other) == t@.contains_key(
                    other,
                ) && (t@.contains_key(other) ==> final(t)@[other] == t@[other])
            },
{
}

/// What a table answers for a key is what it holds under it.
pub proof fn law_tables_answer(t: &TextTable, owner: Option<i64>, key: &str, r: Option<String>)
    requires
        call_ensures(TextTable::get, (t, owner, key), r),
    ensures
        r is Some <==> t@.contains_key((owner, key@)),
        r is Some ==> r->0@ == t@[(owner, key@)],
{
}

/// What a table lists for an owner is all that it holds for them, each key once,
/// in the order of the keys.
pub proof fn law_tables_list_everything(
    t: TextTable,
    owner: Option<i64>,
    r: Vec<Pair>,
    key: Seq<char>,
    i: int,
    j: int,
)
    requires
        t.wf(),
        call_ensures(TextTable::pairs_by_key, (&t, owner), r),
    ensures
        t@.contains_key((owner, key)) <==> exists|k: int|
            0 <= k < r@.len() && (#[trigger] r@[k]).key@ == key,
        0 <= i < r@.len() ==> t@.contains_key((owner, r@[i].key@)) && r@[i].value@ == t@[(
            owner,
            r@[i].key@,
        )],
        0 <= i < j < r@.len() ==> !text::text_lt(r@[j].key@, r@[i].key@),
{
    broadcast use vstd::seq_lib::group_to_multiset_ensures;

    let mine = owned(t.rows(), owner);
    let sorted = sort::sorted(mine, key_order());
    t.lemma_rows();
    lemma_key_order();
    lemma_owned(t.rows(), owner);
    law_owned_rows(t.rows(), owner, key);
    sort::law_sort_permutes(mine, key_order());
    sort::law_sort_orders(mine, key_order());
    if exists|k: int| 0 <= k < mine.len() && (#[trigger] mine[k]).key@ == key {
        let k = choose|k: int| 0 <= k < mine.len() && (#[trigger] mine[k]).key@ == key;
        assert(mine.contains(mine[k]));
        assert(sorted.to_multiset().count(mine[k]) > 0);
        assert(sorted.contains(mine[k]));
        let m = choose|m: int| 0 <= m < sorted.len() && sorted[m] == mine[k];
        assert(r@[m].key@ == key);
    }
    if exists|k: int| 0 <= k < r@.len() && (#[trigger] r@[k]).key@ == key {
        let k = choose|k: int| 0 <= k < r@.len() && (#[trigger] r@[k]).key@ == key;
        assert(sorted.contains(sorted[k]));
        assert(mine.to_multiset().count(sorted[k]) > 0);
        assert(mine.contains(sorted[k]));
        let m = choose|m: int| 0 <= m < mine.len() && mine[m] == sorted[k];
        assert(mine[m].key@ == key);
    }
    if 0 <= i < r@.len() {
        assert(r@[i].key@ == sorted[i].key@);
        assert(sorted.contains(sorted[i]));
        assert(mine.to_multiset().count(sorted[i]) > 0);
        assert(mine.contains(sorted[i]));
        let m = choose|m: int| 0 <= m < mine.len() && mine[m] == sorted[i];
        assert(mine[m].key@ == r@[i].key@);
        if i < j < r@.len() {
            assert(!key_order()(sorted[j], sorted[i]));
            assert(r@[j].key@ == sorted[j].key@);
        }
    }
}

} // verus!
