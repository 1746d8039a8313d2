//! A connection together with the history of the statements handed to it,
//! in the order they were handed over. Only the methods here extend the
//! history, so contracts over it fix the order of a function's writes.
use vstd::prelude::*;
use crate::db::{execute, query, execute_batch, ran, answered, row_views, DbError, SqlCell};
use crate::search::{SqlValue, ParamView, param_views};

verus! {

/// A statement as handed over: its SQL text and the models of its values.
pub type Stmt = (Seq<char>, Seq<ParamView>);

/// A connection and the statements handed to it so far.
pub struct Session<'a> {
    conn: &'a rusqlite::Connection,
    history: Ghost<Seq<Stmt>>,
}

impl<'a> Session<'a> {
    /// The statements handed over so far, oldest first (failed ones too).
    pub closed spec fn history(&self) -> Seq<Stmt> {
        self.history@
    }

    /// A session on `conn` with an empty history.
    pub fn new(conn: &'a rusqlite::Connection) -> (r: Session<'a>)
        ensures
            r.history() == Seq::<Stmt>::empty(),
    {
        Session { conn, history: Ghost(Seq::empty()) }
    }

    /// The connection, for reads that need no place in the history.
    pub fn conn(&self) -> (r: &'a rusqlite::Connection) {
        self.conn
    }

    /// Runs one statement; the number of rows changed.
    pub fn execute(&mut self, sql: &str, params: &Vec<SqlValue>) -> (r: Result<usize, DbError>)
        ensures
            final(self).history() == old(self).history().push((sql@, param_views(params@))),
            r is Ok ==> ran(sql@, param_views(params@)),
    {
        let r = execute(self.conn, sql, params);
        self.history = Ghost(self.history@.push((sql@, param_views(params@))));
        r
    }

    /// Runs a query; its rows.
    pub fn query(&mut self, sql: &str, params: &Vec<SqlValue>) -> (r: Result<Vec<Vec<SqlCell>>, DbError>)
        ensures
            final(self).history() == old(self).history().push((sql@, param_views(params@))),
            r matches Ok(rows) ==> answered(sql@, param_views(params@), row_views(rows@)),
    {
        let r = query(self.conn, sql, params);
        self.history = Ghost(self.history@.push((sql@, param_views(params@))));
        r
    }

    /// Runs a batch of statements (no values).
    pub fn execute_batch(&mut self, sql: &str) -> (r: Result<(), DbError>)
        ensures
            final(self).history() == old(self).history().push((sql@, Seq::empty())),
            r is Ok ==> ran(sql@, Seq::empty()),
    {
        let r = execute_batch(self.conn, sql);
        self.history = Ghost(self.history@.push((sql@, Seq::<ParamView>::empty())));
        r
    }
}

/// `after` is `before` followed by statements whose SQL text is each in
/// `sqls`.
pub open spec fn grew_within(before: Seq<Stmt>, after: Seq<Stmt>, sqls: Set<Seq<char>>) -> bool {
    &&& before.len() <= after.len()
    &&& after.subrange(0, before.len() as int) == before
    &&& forall|i: int| before.len() <= i < after.len() ==> sqls.contains((#[trigger] after[i]).0)
}

/// Growth within a set composes.
pub broadcast proof fn lemma_grew_trans(a: Seq<Stmt>, b: Seq<Stmt>, c: Seq<Stmt>, s: Set<Seq<char>>)
    requires
        #[trigger] grew_within(a, b, s),
        #[trigger] grew_within(b, c, s),
    ensures
        grew_within(a, c, s),
{
    assert(c.subrange(0, a.len() as int) =~= a) by {
        assert forall|i: int| 0 <= i < a.len() implies c.subrange(0, a.len() as int)[i] == a[i] by {
            assert(c.subrange(0, b.len() as int)[i] == b[i]);
            assert(b.subrange(0, a.len() as int)[i] == a[i]);
        }
    }
    assert forall|i: int| a.len() <= i < c.len() implies s.contains((#[trigger] c[i]).0) by {
        if i < b.len() {
            assert(c.subrange(0, b.len() as int)[i] == b[i]);
        }
    }
}

/// Growth within a set is growth within its union with any other.
pub broadcast proof fn lemma_grew_union(a: Seq<Stmt>, b: Seq<Stmt>, s: Set<Seq<char>>, t: Set<Seq<char>>)
    requires
        grew_within(a, b, s),
    ensures
        #[trigger] grew_within(a, b, s.union(t)),
{
}

/// Nothing handed over is growth within any set.
pub broadcast proof fn lemma_grew_refl(a: Seq<Stmt>, s: Set<Seq<char>>)
    ensures
        #[trigger] grew_within(a, a, s),
{
    assert(a.subrange(0, a.len() as int) =~= a);
}

/// Growth within a set, followed by one more statement in it, is growth
/// within it.
pub broadcast proof fn lemma_grew_push(a: Seq<Stmt>, b: Seq<Stmt>, x: Stmt, s: Set<Seq<char>>)
    requires
        grew_within(a, b, s),
        s.contains(x.0),
    ensures
        #[trigger] grew_within(a, b.push(x), s),
{
    assert(b.push(x).subrange(0, a.len() as int) =~= b.subrange(0, a.len() as int));
    assert forall|i: int| a.len() <= i < b.push(x).len() implies s.contains((#[trigger] b.push(x)[i]).0) by {
        if i < b.len() {
            assert(b.push(x)[i] == b[i]);
        }
    }
}

} // verus!

verus! {

/// The facts about growth within a set.
pub broadcast group group_grew {
    lemma_grew_trans,
    lemma_grew_push,
    lemma_grew_refl,
    lemma_grew_union,
}

} // verus!
