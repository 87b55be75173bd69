//! The subscriptions table and the writer that fills it.
//!
//! `Store` is the library's model of the relational table the service
//! writes to: the rows in insertion order, nothing more. The write path —
//! identifier and timestamp assignment, and the append itself — is the
//! verified logic; carrying a row to a real database over a connection
//! pool is I/O that a caller performs with the very values a row holds.

use vstd::prelude::*;

use crate::clock::now_timestamp_millis;
use crate::text::str_eq;
use crate::uid::{fresh_id, is_version4};
use crate::validation::FormData;

verus! {

/// One persisted subscription: the columns of the `subscriptions` table.
pub struct SubscriptionRow {
    pub id: u128,
    pub email: String,
    pub name: String,
    pub subscribed_at: i64,
}

/// The mathematical image of a row: its columns as plain values.
pub ghost struct RowModel {
    pub id: u128,
    pub email: Seq<char>,
    pub name: Seq<char>,
    pub subscribed_at: i64,
}

impl View for SubscriptionRow {
    type V = RowModel;

    open spec fn view(&self) -> RowModel {
        RowModel {
            id: self.id,
            email: self.email@,
            name: self.name@,
            subscribed_at: self.subscribed_at,
        }
    }
}

/// How many rows carry the given email.
pub open spec fn email_count(rows: Seq<RowModel>, email: Seq<char>) -> nat
    decreases rows.len(),
{
    if rows.len() == 0 {
        0
    } else {
        email_count(rows.drop_last(), email) + if rows.last().email == email {
            1nat
        } else {
            0nat
        }
    }
}

/// The first row carrying the given id, if any.
pub open spec fn row_with_id(rows: Seq<RowModel>, id: u128) -> Option<RowModel>
    decreases rows.len(),
{
    if rows.len() == 0 {
        None
    } else if rows.first().id == id {
        Some(rows.first())
    } else {
        row_with_id(rows.drop_first(), id)
    }
}

/// The model of the subscriptions table: its rows in insertion order. Rows
/// are only ever appended — the service has no update or delete path — and
/// each append is one atomic row.
pub struct Store {
    rows: Vec<SubscriptionRow>,
}

impl View for Store {
    type V = Seq<RowModel>;

    closed spec fn view(&self) -> Seq<RowModel> {
        self.rows@.map(|i: int, r: SubscriptionRow| r@)
    }
}

impl Store {
    /// An empty table.
    pub fn new() -> (s: Store)
        ensures
            s@ == Seq::<RowModel>::empty(),
    {
        let s = Store { rows: Vec::new() };
        proof {
            assert(s@ =~= Seq::<RowModel>::empty());
        }
        s
    }

    /// How many rows the table holds.
    pub fn len(&self) -> (n: usize)
        ensures
            n == self@.len(),
    {
        self.rows.len()
    }

    /// The row at a position, in insertion order.
    pub fn row_at(&self, i: usize) -> (r: &SubscriptionRow)
        requires
            i < self@.len(),
        ensures
            r@ == self@[i as int],
    {
        &self.rows[i]
    }

    /// Appends one row. The insert is atomic: every earlier row stands
    /// unchanged, and exactly this row is added at the end.
    pub fn insert_row(&mut self, row: SubscriptionRow)
        ensures
            final(self)@ == old(self)@.push(row@),
    {
        let ghost before = self.rows@;
        self.rows.push(row);
        proof {
            assert(self@ =~= before.map(|i: int, r: SubscriptionRow| r@).push(
                self.rows@.last()@,
            ));
        }
    }

    /// The write path of the intake pipeline: assigns a fresh identifier
    /// and the current instant, and appends the one resulting row. The
    /// submitted texts are stored byte-identically; the identifier is
    /// returned to the caller.
    pub fn insert_subscription(&mut self, data: FormData) -> (id: u128)
        ensures
            final(self)@.len() == old(self)@.len() + 1,
            final(self)@ == old(self)@.push(final(self)@.last()),
            final(self)@.last().email == data.email@,
            final(self)@.last().name == data.name@,
            final(self)@.last().id == id,
            is_version4(id),
    {
        let row = new_row(data);
        let id = row.id;
        self.insert_row(row);
        id
    }

    /// How many rows carry the given email, byte for byte.
    pub fn count_with_email(&self, email: &str) -> (c: usize)
        ensures
            c == email_count(self@, email@),
    {
        let n = self.rows.len();
        let mut c: usize = 0;
        let mut i: usize = 0;
        proof {
            assert(self@.take(0) =~= Seq::<RowModel>::empty());
        }
        while i < n
            invariant
                i <= n,
                n == self@.len(),
                c <= i,
                c == email_count(self@.take(i as int), email@),
                n == self.rows@.len(),
            decreases n - i,
        {
            proof {
                assert(self@.take(i + 1).drop_last() =~= self@.take(i as int));
                assert(self@.take(i + 1).last() == self@[i as int]);
                assert(self@[i as int].email == self.rows@[i as int].email@);
            }
            if str_eq(self.rows[i].email.as_str(), email) {
                c = c + 1;
            }
            i = i + 1;
        }
        proof {
            assert(self@.take(n as int) =~= self@);
        }
        c
    }

    /// Looks a row up by its identifier: the first row carrying it, or
    /// `None` when no row does.
    pub fn find_by_id(&self, id: u128) -> (r: Option<&SubscriptionRow>)
        ensures
            match r {
                Some(row) => row_with_id(self@, id) == Some(row@),
                None => row_with_id(self@, id) is None,
            },
    {
        let n = self.rows.len();
        let mut i: usize = 0;
        proof {
            assert(self@.skip(0) =~= self@);
        }
        while i < n
            invariant
                i <= n,
                n == self@.len(),
                n == self.rows@.len(),
                row_with_id(self@, id) == row_with_id(self@.skip(i as int), id),
            decreases n - i,
        {
            proof {
                assert(self@.skip(i as int).first() == self@[i as int]);
                assert(self@.skip(i as int).drop_first() =~= self@.skip(i + 1));
                assert(self@[i as int].id == self.rows@[i as int].id);
            }
            if self.rows[i].id == id {
                return Some(&self.rows[i]);
            }
            i = i + 1;
        }
        proof {
            assert(self@.skip(n as int) =~= Seq::<RowModel>::empty());
        }
        None
    }
}

/// Builds the row for a validated subscription: a fresh random identifier,
/// the current instant, and the submitted texts unchanged.
pub fn new_row(data: FormData) -> (row: SubscriptionRow)
    ensures
        row.email@ == data.email@,
        row.name@ == data.name@,
        is_version4(row.id),
{
    let id = fresh_id();
    let subscribed_at = now_timestamp_millis();
    SubscriptionRow { id, email: data.email, name: data.name, subscribed_at }
}

/// A failed write, carrying the underlying cause for the operator's log.
/// The cause is never put in a response.
pub struct WriteError {
    pub cause: String,
}

/// Two writes with distinct identifiers — as two concurrent accepted
/// requests produce, in whichever order the store serializes them — yield
/// two distinct rows; every earlier row stands unchanged and neither new
/// row overwrites the other.
pub proof fn lemma_two_writes_distinct_rows(rows: Seq<RowModel>, r1: RowModel, r2: RowModel)
    requires
        r1.id != r2.id,
    ensures
        rows.push(r1).push(r2).len() == rows.len() + 2,
        forall|k: int| 0 <= k < rows.len() ==> rows.push(r1).push(r2)[k] == rows[k],
        rows.push(r1).push(r2)[rows.len() as int] == r1,
        rows.push(r1).push(r2)[rows.len() + 1 as int] == r2,
        r1 != r2,
{
}

/// Submitting the same email twice yields two separate rows: the table
/// enforces no uniqueness of emails, so the count for that email grows by
/// exactly two.
pub proof fn lemma_same_email_twice_two_rows(rows: Seq<RowModel>, r1: RowModel, r2: RowModel)
    requires
        r1.email == r2.email,
    ensures
        email_count(rows.push(r1).push(r2), r1.email) == email_count(rows, r1.email) + 2,
{
    let once = rows.push(r1);
    assert(once.push(r2).drop_last() =~= once);
    assert(once.drop_last() =~= rows);
    assert(email_count(rows.push(r1).push(r2), r1.email) == email_count(once, r1.email) + 1);
    assert(email_count(once, r1.email) == email_count(rows, r1.email) + 1);
}

/// A row written under an identifier no earlier row carries is retrieved
/// by that identifier, byte-identical.
pub proof fn lemma_insert_then_find(rows: Seq<RowModel>, r: RowModel)
    requires
        forall|k: int| 0 <= k < rows.len() ==> rows[k].id != r.id,
    ensures
        row_with_id(rows.push(r), r.id) == Some(r),
    decreases rows.len(),
{
    if rows.len() == 0 {
        assert(rows.push(r).first() == r);
    } else {
        assert(rows.push(r).first() == rows[0]);
        assert(rows.push(r).drop_first() =~= rows.drop_first().push(r));
        assert(forall|k: int|
            0 <= k < rows.drop_first().len() ==> rows.drop_first()[k].id != r.id);
        lemma_insert_then_find(rows.drop_first(), r);
    }
}

} // verus!
