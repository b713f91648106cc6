//! Keyed rows in the order in which they came.
//!
//! A [`Table`] holds at most one row per key. What it holds is a map from keys to rows; the
//! order of arrival is kept beside it.
use vstd::prelude::*;

verus! {

/// A key as a value.
pub enum KeyView {
    Text(Seq<char>),
    Pair(Seq<char>, Seq<char>),
    Triple(Seq<char>, Seq<char>, Seq<char>),
    Number(int),
}

/// A key to look a row up by.
#[derive(Clone, Copy)]
pub enum Key<'a> {
    Text(&'a str),
    Pair(&'a str, &'a str),
    Triple(&'a str, &'a str, &'a str),
    Number(i64),
}

impl<'a> View for Key<'a> {
    type V = KeyView;

    open spec fn view(&self) -> KeyView {
        match self {
            Key::Text(s) => KeyView::Text(s@),
            Key::Pair(a, b) => KeyView::Pair(a@, b@),
            Key::Triple(a, b, c) => KeyView::Triple(a@, b@, c@),
            Key::Number(n) => KeyView::Number(*n as int),
        }
    }
}

/// Something that is found by a key.
pub trait Row: Sized {
    /// The key of this row.
    spec fn key(&self) -> KeyView;

    /// Whether this is the row's key.
    fn has_key(&self, key: Key) -> (r: bool)
        ensures
            r == (self.key() == key@),
    ;
}

/// No two rows have the same key.
pub open spec fn distinct_keys<R: Row>(rows: Seq<R>) -> bool {
    forall|i: int, j: int|
        0 <= i < j < rows.len() ==> #[trigger] rows[i].key() != #[trigger] rows[j].key()
}

/// The row at position `i` has this key.
pub open spec fn keyed_at<R: Row>(rows: Seq<R>, key: KeyView, i: int) -> bool {
    0 <= i < rows.len() && rows[i].key() == key
}

/// The rows by their keys.
pub open spec fn by_key<R: Row>(rows: Seq<R>) -> Map<KeyView, R> {
    Map::new(
        |key: KeyView| exists|i: int| keyed_at(rows, key, i),
        |key: KeyView| rows[choose|i: int| keyed_at(rows, key, i)],
    )
}

/// Rows that keep their places: each place holds what its key now leads to.
pub open spec fn in_place<R: Row>(order: Seq<R>, rows: Map<KeyView, R>) -> Seq<R> {
    Seq::new(order.len(), |i: int| rows[order[i].key()])
}

/// A position holds what its key leads to.
pub proof fn lemma_by_key_at<R: Row>(rows: Seq<R>, i: int)
    requires
        distinct_keys(rows),
        0 <= i < rows.len(),
    ensures
        by_key(rows).contains_key(rows[i].key()),
        by_key(rows)[rows[i].key()] == rows[i],
{
    let key = rows[i].key();
    assert(keyed_at(rows, key, i));
    let j = choose|j: int| keyed_at(rows, key, j);
    assert(keyed_at(rows, key, j));
    if i < j {
        assert(rows[i].key() != rows[j].key());
    } else if j < i {
        assert(rows[j].key() != rows[i].key());
    }
}

/// Every key that leads somewhere stands at a position.
pub proof fn lemma_by_key_has_position<R: Row>(rows: Seq<R>, key: KeyView) -> (i: int)
    requires
        by_key(rows).contains_key(key),
    ensures
        keyed_at(rows, key, i),
{
    choose|i: int| keyed_at(rows, key, i)
}

/// Some of the rows, picked by what they hold.
pub proof fn lemma_filtered<R: Row>(rows: Seq<R>, asked: spec_fn(R) -> bool, row: R)
    requires
        distinct_keys(rows),
    ensures
        rows.filter(asked).contains(row) <==> {
            &&& by_key(rows).contains_key(row.key())
            &&& by_key(rows)[row.key()] == row
            &&& asked(row)
        },
{
    let picked = rows.filter(asked);
    if picked.contains(row) {
        let j = choose|j: int| 0 <= j < picked.len() && picked[j] == row;
        rows.lemma_filter_pred(asked, j);
        rows.lemma_filter_contains_rev(asked, row);
        let i = choose|i: int| 0 <= i < rows.len() && rows[i] == row;
        lemma_by_key_at(rows, i);
    }
    if by_key(rows).contains_key(row.key()) && by_key(rows)[row.key()] == row && asked(row) {
        let i = lemma_by_key_has_position(rows, row.key());
        lemma_by_key_at(rows, i);
        rows.lemma_filter_contains(asked, i);
    }
}

/// A row with a new key is added to the map wherever it is put.
pub proof fn lemma_by_key_insert<R: Row>(rows: Seq<R>, i: int, row: R)
    requires
        distinct_keys(rows),
        0 <= i <= rows.len(),
        !by_key(rows).contains_key(row.key()),
    ensures
        distinct_keys(rows.insert(i, row)),
        by_key(rows.insert(i, row)) == by_key(rows).insert(row.key(), row),
{
    let after = rows.insert(i, row);
    assert forall|j: int| 0 <= j < rows.len() implies #[trigger] rows[j].key() != row.key() by {
        if rows[j].key() == row.key() {
            assert(keyed_at(rows, row.key(), j));
        }
    }
    assert forall|a: int, b: int| 0 <= a < b < after.len() implies #[trigger] after[a].key()
        != #[trigger] after[b].key() by {
        let ra = if a < i { a } else { a - 1 };
        let rb = if b < i { b } else { b - 1 };
        if a != i {
            assert(after[a] == rows[ra]);
        }
        if b != i {
            assert(after[b] == rows[rb]);
        }
    }
    let want = by_key(rows).insert(row.key(), row);
    assert forall|key: KeyView| by_key(after).contains_key(key) <==> want.contains_key(key) by {
        if by_key(after).contains_key(key) {
            let j = lemma_by_key_has_position(after, key);
            if j != i {
                let rj = if j < i { j } else { j - 1 };
                assert(after[j] == rows[rj]);
                assert(keyed_at(rows, key, rj));
            }
        }
        if want.contains_key(key) {
            if key == row.key() {
                assert(keyed_at(after, key, i));
            } else {
                let j = lemma_by_key_has_position(rows, key);
                let aj = if j < i { j } else { j + 1 };
                assert(after[aj] == rows[j]);
                assert(keyed_at(after, key, aj));
            }
        }
    }
    assert forall|key: KeyView| by_key(after).contains_key(key) implies by_key(after)[key]
        == want[key] by {
        let j = lemma_by_key_has_position(after, key);
        lemma_by_key_at(after, j);
        if j != i {
            let rj = if j < i { j } else { j - 1 };
            assert(after[j] == rows[rj]);
            lemma_by_key_at(rows, rj);
        }
    }
    assert(by_key(after) =~= want);
}

/// Taking a row out takes its key out of the map.
pub proof fn lemma_by_key_remove<R: Row>(rows: Seq<R>, i: int)
    requires
        distinct_keys(rows),
        0 <= i < rows.len(),
    ensures
        distinct_keys(rows.remove(i)),
        by_key(rows.remove(i)) == by_key(rows).remove(rows[i].key()),
{
    let after = rows.remove(i);
    let want = by_key(rows).remove(rows[i].key());
    assert forall|a: int, b: int| 0 <= a < b < after.len() implies #[trigger] after[a].key()
        != #[trigger] after[b].key() by {
        let ra = if a < i { a } else { a + 1 };
        let rb = if b < i { b } else { b + 1 };
        assert(after[a] == rows[ra]);
        assert(after[b] == rows[rb]);
    }
    assert forall|key: KeyView| by_key(after).contains_key(key) <==> want.contains_key(key) by {
        if by_key(after).contains_key(key) {
            let j = lemma_by_key_has_position(after, key);
            let rj = if j < i { j } else { j + 1 };
            assert(after[j] == rows[rj]);
            assert(keyed_at(rows, key, rj));
            if rj < i {
                assert(rows[rj].key() != rows[i].key());
            } else {
                assert(rows[i].key() != rows[rj].key());
            }
        }
        if want.contains_key(key) {
            let j = lemma_by_key_has_position(rows, key);
            let aj = if j < i { j } else { j - 1 };
            assert(after[aj] == rows[j]);
            assert(keyed_at(after, key, aj));
        }
    }
    assert forall|key: KeyView| by_key(after).contains_key(key) implies by_key(after)[key]
        == want[key] by {
        let j = lemma_by_key_has_position(after, key);
        let rj = if j < i { j } else { j + 1 };
        assert(after[j] == rows[rj]);
        lemma_by_key_at(after, j);
        lemma_by_key_at(rows, rj);
    }
    assert(by_key(after) =~= want);
}

/// Rows with distinct keys, in order of arrival.
pub struct Table<R: Row> {
    rows: Vec<R>,
}

impl<R: Row> View for Table<R> {
    type V = Map<KeyView, R>;

    closed spec fn view(&self) -> Map<KeyView, R> {
        by_key(self.rows@)
    }
}

impl<R: Row> Table<R> {
    #[verifier::type_invariant]
    closed spec fn inv(self) -> bool {
        distinct_keys(self.rows@)
    }

    /// The rows in order of arrival.
    pub closed spec fn order(self) -> Seq<R> {
        self.rows@
    }

    /// Every place holds the row that its key leads to.
    pub open spec fn places_agree(self) -> bool {
        forall|i: int|
            0 <= i < self.order().len() ==> self@.contains_key((#[trigger] self.order()[i]).key())
                && self@[self.order()[i].key()] == self.order()[i]
    }

    /// The order of a table agrees with its map.
    proof fn lemma_places_agree(&self)
        requires
            distinct_keys(self.rows@),
        ensures
            self.places_agree(),
    {
        assert forall|i: int| 0 <= i < self.order().len() implies self@.contains_key(
            (#[trigger] self.order()[i]).key(),
        ) && self@[self.order()[i].key()] == self.order()[i] by {
            lemma_by_key_at(self.rows@, i);
        }
    }

    /// The map is that of the rows.
    pub proof fn lemma_view(&self)
        ensures
            self@ == by_key(self.order()),
    {
    }

    /// All the rows, in their order.
    pub fn into_rows(self) -> (r: Vec<R>)
        ensures
            r@ == self.order(),
            distinct_keys(r@),
            by_key(r@) == self@,
    {
        proof {
            use_type_invariant(&self);
        }
        self.rows
    }

    /// Every row that a key leads to stands at a place.
    pub proof fn lemma_place_of(&self, key: KeyView) -> (i: int)
        requires
            self@.contains_key(key),
        ensures
            0 <= i < self.order().len(),
            self.order()[i].key() == key,
            self@[key] == self.order()[i],
    {
        choose|i: int| keyed_at(self.rows@, key, i) && self.rows@[i] == by_key(self.rows@)[key]
    }

    /// A table without rows.
    pub fn new() -> (r: Self)
        ensures
            r@ == Map::<KeyView, R>::empty(),
            r.order() == Seq::<R>::empty(),
    {
        let r: Table<R> = Table { rows: Vec::new() };
        assert(r@ =~= Map::<KeyView, R>::empty());
        r
    }

    /// How many rows there are.
    pub fn len(&self) -> (r: usize)
        ensures
            r == self.order().len(),
            distinct_keys(self.order()),
    {
        proof {
            use_type_invariant(self);
        }
        self.rows.len()
    }

    /// The row at a position.
    pub fn at(&self, i: usize) -> (r: &R)
        requires
            i < self.order().len(),
        ensures
            *r == self.order()[i as int],
            self@.contains_key(r.key()),
            self@[r.key()] == *r,
    {
        proof {
            use_type_invariant(self);
            lemma_by_key_at(self.rows@, i as int);
        }
        &self.rows[i]
    }

    /// The position of a key.
    pub fn find(&self, key: Key) -> (r: Option<usize>)
        ensures
            match r {
                Some(i) => {
                    &&& i < self.order().len()
                    &&& self.order()[i as int].key() == key@
                    &&& self@.contains_key(key@)
                    &&& self@[key@] == self.order()[i as int]
                },
                None => !self@.contains_key(key@),
            },
    {
        proof {
            use_type_invariant(self);
        }
        let mut i: usize = 0;
        while i < self.rows.len()
            invariant
                i <= self.rows@.len(),
                distinct_keys(self.rows@),
                forall|j: int| 0 <= j < i ==> #[trigger] self.rows@[j].key() != key@,
            decreases self.rows@.len() - i,
        {
            if self.rows[i].has_key(key) {
                proof {
                    lemma_by_key_at(self.rows@, i as int);
                }
                return Some(i);
            }
            i = i + 1;
        }
        assert(!self@.contains_key(key@)) by {
            if self@.contains_key(key@) {
                let j = lemma_by_key_has_position(self.rows@, key@);
                assert(self.rows@[j].key() == key@);
            }
        }
        None
    }

    /// The row of a key.
    pub fn get(&self, key: Key) -> (r: Option<&R>)
        ensures
            match r {
                Some(row) => self@.contains_key(key@) && *row == self@[key@] && row.key() == key@,
                None => !self@.contains_key(key@),
            },
    {
        match self.find(key) {
            Some(i) => Some(&self.rows[i]),
            None => None,
        }
    }

    /// Adds a row with a new key at the end.
    pub fn push(&mut self, row: R)
        requires
            !old(self)@.contains_key(row.key()),
        ensures
            final(self)@ == old(self)@.insert(row.key(), row),
            final(self).order() == old(self).order().push(row),
            final(self).places_agree(),
    {
        proof {
            use_type_invariant(&*self);
            lemma_by_key_insert(self.rows@, self.rows@.len() as int, row);
            assert(self.rows@.insert(self.rows@.len() as int, row) =~= self.rows@.push(row));
        }
        let mut rows: Vec<R> = Vec::new();
        std::mem::swap(&mut rows, &mut self.rows);
        rows.push(row);
        self.rows = rows;
        proof {
            use_type_invariant(&*self);
            self.lemma_places_agree();
        }
    }

    /// Takes the row at a position out.
    pub fn remove_at(&mut self, i: usize) -> (r: R)
        requires
            i < old(self).order().len(),
        ensures
            r == old(self).order()[i as int],
            old(self)@.contains_key(r.key()),
            old(self)@[r.key()] == r,
            final(self)@ == old(self)@.remove(r.key()),
            final(self).order() == old(self).order().remove(i as int),
            final(self).places_agree(),
    {
        proof {
            use_type_invariant(&*self);
            lemma_by_key_remove(self.rows@, i as int);
            lemma_by_key_at(self.rows@, i as int);
        }
        let mut rows: Vec<R> = Vec::new();
        std::mem::swap(&mut rows, &mut self.rows);
        let row: R = rows.remove(i);
        self.rows = rows;
        proof {
            use_type_invariant(&*self);
            self.lemma_places_agree();
        }
        row
    }

    /// Puts a row with a new key at a position.
    pub fn insert_at(&mut self, i: usize, row: R)
        requires
            i <= old(self).order().len(),
            !old(self)@.contains_key(row.key()),
        ensures
            final(self)@ == old(self)@.insert(row.key(), row),
            final(self).order() == old(self).order().insert(i as int, row),
            final(self).places_agree(),
    {
        proof {
            use_type_invariant(&*self);
            lemma_by_key_insert(self.rows@, i as int, row);
        }
        let mut rows: Vec<R> = Vec::new();
        std::mem::swap(&mut rows, &mut self.rows);
        rows.insert(i, row);
        self.rows = rows;
        proof {
            use_type_invariant(&*self);
            self.lemma_places_agree();
        }
    }
}

} // verus!
