//! SQL statements and the values bound to them.

use vstd::prelude::*;
use vstd::string::*;

verus! {

broadcast use vstd::string::group_string_axioms;

/// A value bound to a statement.
#[derive(Debug)]
pub enum SqlValue {
    Null,
    Int(i64),
    Text(String),
}

/// What an [`SqlValue`] stands for.
pub enum SqlView {
    Null,
    Int(i64),
    Text(Seq<char>),
}

impl View for SqlValue {
    type V = SqlView;

    open spec fn view(&self) -> SqlView {
        match *self {
            SqlValue::Null => SqlView::Null,
            SqlValue::Int(n) => SqlView::Int(n),
            SqlValue::Text(s) => SqlView::Text(s@),
        }
    }
}

impl DeepView for SqlValue {
    type V = SqlView;

    open spec fn deep_view(&self) -> SqlView {
        self@
    }
}

/// A text, or `NULL` where there is none.
pub open spec fn text_or_sql_null(t: Option<Seq<char>>) -> SqlView {
    match t {
        Some(s) => SqlView::Text(s),
        None => SqlView::Null,
    }
}

impl SqlValue {
    /// A text value.
    pub fn text(s: &str) -> (r: SqlValue)
        ensures
            r@ == SqlView::Text(s@),
    {
        SqlValue::Text(s.to_string())
    }

    /// A text value, or `NULL` where there is no text.
    pub fn optional_text(s: &Option<String>) -> (r: SqlValue)
        ensures
            r@ == text_or_sql_null(s.deep_view()),
    {
        match s {
            Some(s) => SqlValue::Text(s.clone()),
            None => SqlValue::Null,
        }
    }
}

/// A statement with the values for its placeholders, in order.
#[derive(Debug)]
pub struct Statement {
    pub sql: String,
    pub binds: Vec<SqlValue>,
}

/// What a [`Statement`] stands for.
pub struct StatementView {
    pub sql: Seq<char>,
    pub binds: Seq<SqlView>,
}

impl View for Statement {
    type V = StatementView;

    open spec fn view(&self) -> StatementView {
        StatementView { sql: self.sql@, binds: self.binds.deep_view() }
    }
}

impl DeepView for Statement {
    type V = StatementView;

    open spec fn deep_view(&self) -> StatementView {
        self@
    }
}

impl Statement {
    /// A statement with its values.
    pub fn new(sql: &str, binds: Vec<SqlValue>) -> (r: Self)
        ensures
            r@ == (StatementView { sql: sql@, binds: binds.deep_view() }),
    {
        Statement { sql: sql.to_string(), binds }
    }
}

/// `n` placeholders, separated by commas.
pub open spec fn placeholders(n: nat) -> Seq<char>
    decreases n,
{
    if n == 0 {
        Seq::empty()
    } else if n == 1 {
        "?"@
    } else {
        placeholders((n - 1) as nat) + ",?"@
    }
}

/// Writes `n` placeholders, separated by commas.
pub fn write_placeholders(n: usize) -> (r: String)
    ensures
        r@ == placeholders(n as nat),
{
    let mut r = String::new();
    if n == 0 {
        return r;
    }
    r.append("?");
    assert(r@ =~= "?"@);
    let mut k: usize = 1;
    while k < n
        invariant
            1 <= k <= n,
            r@ == placeholders(k as nat),
        decreases n - k,
    {
        r.append(",?");
        k += 1;
    }
    r
}

/// `n` rows of three placeholders.
pub open spec fn row_list(n: nat) -> Seq<char>
    decreases n,
{
    if n == 0 {
        Seq::empty()
    } else if n == 1 {
        "(?, ?, ?)"@
    } else {
        row_list((n - 1) as nat) + ", (?, ?, ?)"@
    }
}

/// Builds an insertion of rows of three values with `sqlx::QueryBuilder`, and hands back its SQL.
/// `push_values` writes `VALUES` and a bracketed list of placeholders for each row. It takes at
/// least one row.
#[verifier::external_body]
pub(crate) fn values_sql(head: &str, rows: &Vec<(i64, String, String)>) -> (r: String)
    requires
        rows@.len() > 0,
    ensures
        r@ == head@ + "VALUES "@ + row_list(rows@.len()),
{
    let mut query = sqlx::QueryBuilder::<sqlx::Sqlite>::new(head);
    query.push_values(rows.iter(), |mut b, row| {
        b.push_bind(row.0);
        b.push_bind(row.1.as_str());
        b.push_bind(row.2.as_str());
    });
    query.into_sql()
}

/// A text that is there is bound as it stands, and one that is not is `NULL`.
pub proof fn a_missing_text_is_bound_as_null(t: Option<Seq<char>>, s: Seq<char>)
    ensures
        t is None <==> text_or_sql_null(t) == SqlView::Null,
        t == Some(s) <==> text_or_sql_null(t) == SqlView::Text(s),
{
}

/// There is a question mark for each value, and a comma between each two.
pub proof fn a_placeholder_stands_for_each_value(n: nat)
    ensures
        placeholders(n).len() == if n == 0 {
            0
        } else {
            2 * n - 1
        },
        forall|i: int|
            0 <= i < placeholders(n).len() ==> #[trigger] placeholders(n)[i] == if i % 2 == 0 {
                '?'
            } else {
                ','
            },
    decreases n,
{
    reveal_strlit("?");
    reveal_strlit(",?");
    if n > 1 {
        a_placeholder_stands_for_each_value((n - 1) as nat);
    }
}

/// There are three question marks in brackets for each row, and a comma and a space between each
/// two rows.
pub proof fn three_placeholders_stand_for_each_row(n: nat)
    ensures
        row_list(n).len() == if n == 0 {
            0
        } else {
            11 * n - 2
        },
        forall|i: int|
            0 <= i < row_list(n).len() ==> #[trigger] row_list(n)[i] == if i % 11 == 0 {
                '('
            } else if i % 11 == 8 {
                ')'
            } else if i % 11 == 2 || i % 11 == 5 || i % 11 == 9 {
                ','
            } else if i % 11 == 3 || i % 11 == 6 || i % 11 == 10 {
                ' '
            } else {
                '?'
            },
    decreases n,
{
    reveal_strlit("(?, ?, ?)");
    reveal_strlit(", (?, ?, ?)");
    if n > 1 {
        three_placeholders_stand_for_each_row((n - 1) as nat);
    }
}

/// A statement stands for its SQL and its values, in order.
pub proof fn a_statement_stands_for_all_it_holds(s: Statement, v: SqlValue)
    ensures
        s@.sql == s.sql@,
        s@.binds.len() == s.binds@.len(),
        forall|i: int| 0 <= i < s.binds@.len() ==> #[trigger] s@.binds[i] == s.binds@[i]@,
        s.deep_view() == s@,
        v is Null <==> v@ is Null,
        v matches SqlValue::Int(n) ==> v@ == SqlView::Int(n),
        v matches SqlValue::Text(text) ==> v@ == SqlView::Text(text@),
        v.deep_view() == v@,
{
}

} // verus!
