//! The SQL that the database helpers, the models and the query builder
//! send: statement texts, with `?` for each parameter, and the order of the
//! parameters. Running them is the caller's work.

use vstd::prelude::*;
use crate::media::std_path_extension;
use crate::text::{
    chars_of, int_decimal, join_chars, join_spec, lex_lt, push_all, push_signed_decimal, push_str,
    string_of, string_views, views_of,
};
use crate::value::Value;

verus! {

/// `col op ?`.
pub open spec fn where_piece(col: Seq<char>, op: Seq<char>) -> Seq<char> {
    col + " "@ + op + " ?"@
}

/// `col = ?`.
pub open spec fn set_piece(col: Seq<char>) -> Seq<char> {
    col + " = ?"@
}

/// `col LIKE ?`.
pub open spec fn like_piece(col: Seq<char>) -> Seq<char> {
    col + " LIKE ?"@
}

/// The ` WHERE` part for conditions given as column and operator: nothing
/// without conditions, else the conditions joined by ` AND `.
pub open spec fn where_clause(conds: Seq<(Seq<char>, Seq<char>)>) -> Seq<char> {
    if conds.len() == 0 {
        Seq::empty()
    } else {
        " WHERE "@ + join_spec(
            Seq::new(conds.len(), |i: int| where_piece(conds[i].0, conds[i].1)),
            " AND "@,
        )
    }
}

/// `INSERT INTO table (c1, c2) VALUES (?, ?)`.
pub open spec fn insert_sql_spec(table: Seq<char>, cols: Seq<Seq<char>>) -> Seq<char> {
    "INSERT INTO "@ + table + " ("@ + join_spec(cols, ", "@) + ") VALUES ("@ + join_spec(
        Seq::new(cols.len(), |i: int| "?"@),
        ", "@,
    ) + ")"@
}

/// `UPDATE table SET c1 = ?, c2 = ? WHERE id = ?`.
pub open spec fn update_sql_spec(table: Seq<char>, cols: Seq<Seq<char>>) -> Seq<char> {
    "UPDATE "@ + table + " SET "@ + join_spec(Seq::new(cols.len(), |i: int| set_piece(cols[i])), ", "@)
        + " WHERE id = ?"@
}

/// `SELECT * FROM table WHERE c1 LIKE ? OR ... ORDER BY id DESC LIMIT 50`,
/// with `1=1` in place of the conditions where there are no columns.
pub open spec fn search_sql_spec(table: Seq<char>, cols: Seq<Seq<char>>) -> Seq<char> {
    let cond = if cols.len() == 0 {
        "1=1"@
    } else {
        join_spec(Seq::new(cols.len(), |i: int| like_piece(cols[i])), " OR "@)
    };
    "SELECT * FROM "@ + table + " WHERE "@ + cond + " ORDER BY id DESC LIMIT 50"@
}

/// Builds pieces `prefix(col) + suffix` for each column.
fn column_pieces(cols: &Vec<String>, suffix: &str) -> (r: Vec<Vec<char>>)
    ensures
        views_of(r@) == Seq::new(cols@.len(), |i: int| cols@[i]@ + suffix@),
{
    let mut r: Vec<Vec<char>> = Vec::new();
    let mut i: usize = 0;
    while i < cols.len()
        invariant
            i <= cols.len(),
            views_of(r@) == Seq::new(i as nat, |k: int| cols@[k]@ + suffix@),
        decreases cols.len() - i,
    {
        let mut p = chars_of(cols[i].as_str());
        push_str(&mut p, suffix);
        let ghost before = r@;
        let ghost pv = p@;
        r.push(p);
        assert(views_of(r@) =~= views_of(before).push(pv));
        i = i + 1;
        assert(views_of(r@) =~= Seq::new(i as nat, |k: int| cols@[k]@ + suffix@));
    }
    assert(Seq::new(i as nat, |k: int| cols@[k]@ + suffix@) =~= Seq::new(
        cols@.len(),
        |k: int| cols@[k]@ + suffix@,
    ));
    r
}

/// The statement that inserts a row with the given columns; an error for no
/// columns.
pub fn insert_sql(table: &str, cols: &Vec<String>) -> (r: Result<String, String>)
    ensures
        cols@.len() == 0 ==> (r matches Err(e) && e@ == "Cannot insert empty data map"@),
        cols@.len() > 0 ==> (r matches Ok(s) && s@ == insert_sql_spec(table@, string_views(cols@))),
{
    if cols.len() == 0 {
        return Err("Cannot insert empty data map".to_owned());
    }
    let names = column_pieces(cols, "");
    proof {
        reveal_strlit("");
        assert forall|k: int| 0 <= k < cols@.len() implies views_of(names@)[k] == string_views(cols@)[k] by {
            assert(cols@[k]@ + ""@ =~= cols@[k]@);
        }
    }
    assert(views_of(names@) =~= string_views(cols@));
    let mut marks: Vec<Vec<char>> = Vec::new();
    let mut i: usize = 0;
    while i < cols.len()
        invariant
            i <= cols.len(),
            views_of(marks@) == Seq::new(i as nat, |k: int| "?"@),
        decreases cols.len() - i,
    {
        let q = chars_of("?");
        let ghost before = marks@;
        let ghost qv = q@;
        marks.push(q);
        assert(views_of(marks@) =~= views_of(before).push(qv));
        i = i + 1;
        assert(views_of(marks@) =~= Seq::new(i as nat, |k: int| "?"@));
    }
    let sep = chars_of(", ");
    let mut out: Vec<char> = Vec::new();
    push_str(&mut out, "INSERT INTO ");
    push_str(&mut out, table);
    push_str(&mut out, " (");
    let joined = join_chars(&names, &sep);
    push_all(&mut out, &joined);
    push_str(&mut out, ") VALUES (");
    let qs = join_chars(&marks, &sep);
    push_all(&mut out, &qs);
    push_str(&mut out, ")");
    Ok(string_of(&out))
}

/// The statement that sets the given columns of the row with an id; an
/// error for no columns. Its parameters are the values, then the id.
pub fn update_sql(table: &str, cols: &Vec<String>) -> (r: Result<String, String>)
    ensures
        cols@.len() == 0 ==> (r matches Err(e) && e@ == "Cannot update with empty data map"@),
        cols@.len() > 0 ==> (r matches Ok(s) && s@ == update_sql_spec(table@, string_views(cols@))),
{
    if cols.len() == 0 {
        return Err("Cannot update with empty data map".to_owned());
    }
    let sets = column_pieces(cols, " = ?");
    assert(views_of(sets@) =~= Seq::new(cols@.len(), |i: int| set_piece(string_views(cols@)[i])));
    let sep = chars_of(", ");
    let mut out: Vec<char> = Vec::new();
    push_str(&mut out, "UPDATE ");
    push_str(&mut out, table);
    push_str(&mut out, " SET ");
    let joined = join_chars(&sets, &sep);
    push_all(&mut out, &joined);
    push_str(&mut out, " WHERE id = ?");
    Ok(string_of(&out))
}

/// The statement that deletes the row with an id.
pub fn delete_sql(table: &str) -> (r: String)
    ensures
        r@ == "DELETE FROM "@ + table@ + " WHERE id = ?"@,
{
    let mut out: Vec<char> = Vec::new();
    push_str(&mut out, "DELETE FROM ");
    push_str(&mut out, table);
    push_str(&mut out, " WHERE id = ?");
    string_of(&out)
}

/// The statement that reads the row with an id.
pub fn find_sql(table: &str) -> (r: String)
    ensures
        r@ == "SELECT * FROM "@ + table@ + " WHERE id = ? LIMIT 1"@,
{
    let mut out: Vec<char> = Vec::new();
    push_str(&mut out, "SELECT * FROM ");
    push_str(&mut out, table);
    push_str(&mut out, " WHERE id = ? LIMIT 1");
    string_of(&out)
}

/// The statement that searches the given columns; each column takes the
/// pattern of [`search_pattern`] as its parameter.
pub fn search_sql(table: &str, cols: &Vec<String>) -> (r: String)
    ensures
        r@ == search_sql_spec(table@, string_views(cols@)),
{
    let mut out: Vec<char> = Vec::new();
    push_str(&mut out, "SELECT * FROM ");
    push_str(&mut out, table);
    push_str(&mut out, " WHERE ");
    if cols.len() == 0 {
        push_str(&mut out, "1=1");
    } else {
        let likes = column_pieces(cols, " LIKE ?");
        assert(views_of(likes@) =~= Seq::new(cols@.len(), |i: int| like_piece(string_views(cols@)[i])));
        let sep = chars_of(" OR ");
        let joined = join_chars(&likes, &sep);
        push_all(&mut out, &joined);
    }
    push_str(&mut out, " ORDER BY id DESC LIMIT 50");
    string_of(&out)
}

/// The LIKE pattern of a search: the query between `%` signs.
pub fn search_pattern(query: &str) -> (r: String)
    ensures
        r@ == "%"@ + query@ + "%"@,
{
    let mut out: Vec<char> = Vec::new();
    push_str(&mut out, "%");
    push_str(&mut out, query);
    push_str(&mut out, "%");
    string_of(&out)
}

/// What a query shows for a BLOB column: its size.
pub fn blob_text(len: u64) -> (r: String)
    ensures
        r@ == "<blob: "@ + crate::text::nat_decimal(len as nat) + " bytes>"@,
{
    let mut out: Vec<char> = Vec::new();
    push_str(&mut out, "<blob: ");
    crate::text::push_decimal(&mut out, len);
    push_str(&mut out, " bytes>");
    string_of(&out)
}

/// The integer under `key` in a result row, or 0 where the row is not an
/// object or has no integer there.
pub open spec fn row_int(row: Value, key: Seq<char>) -> i64 {
    match row {
        Value::Object(entries) => match crate::engine::entry_value(entries@, key) {
            Some(Value::Int(i)) => i,
            _ => 0,
        },
        _ => 0,
    }
}

/// The integer under `key` in a result row (the `count` of a count query,
/// the `changes` of a write), or 0.
pub fn row_int_of(row: &Value, key: &str) -> (r: i64)
    ensures
        r == row_int(*row, key@),
{
    match row {
        Value::Object(entries) => match crate::engine::find_entry(entries, key) {
            Some(i) => match &entries[i].1 {
                Value::Int(n) => *n,
                _ => 0,
            },
            None => 0,
        },
        _ => 0,
    }
}

/// The names that count as migrations: those whose extension is `sql`.
pub open spec fn is_migration_name(name: Seq<char>) -> bool {
    std_path_extension(name) == "sql"@
}

/// Whether `a` sorts before or equal to `b`.
pub open spec fn lex_le(a: Seq<char>, b: Seq<char>) -> bool {
    lex_lt(a, b) || a == b
}

/// Whether a list of names is in ascending order.
pub open spec fn names_sorted(s: Seq<Seq<char>>) -> bool {
    forall|i: int, j: int| 0 <= i < j < s.len() ==> lex_le(#[trigger] s[i], #[trigger] s[j])
}

/// The migrations among the file names of a directory, in the order they
/// are applied: the names whose extension is `sql`, ascending.
pub fn migration_order(names: &Vec<String>) -> (r: Vec<String>)
    ensures
        names_sorted(string_views(r@)),
        string_views(r@).to_multiset() == string_views(names@).filter(|n: Seq<char>| is_migration_name(n)).to_multiset(),
{
    let mut picked: Vec<String> = Vec::new();
    let mut i: usize = 0;
    while i < names.len()
        invariant
            i <= names.len(),
            string_views(picked@) == string_views(names@).take(i as int).filter(|n: Seq<char>| is_migration_name(n)),
        decreases names.len() - i,
    {
        let ext = crate::media::extension_of_path(names[i].as_str());
        let ghost before = picked@;
        proof {
            reveal_with_fuel(Seq::filter, 1);
            assert(string_views(names@).take(i + 1).drop_last() =~= string_views(names@).take(i as int));
        }
        if ext == "sql".to_owned() {
            picked.push(names[i].clone());
            assert(string_views(picked@) =~= string_views(before).push(names@[i as int]@));
        } else {
            assert(picked@ == before);
        }
        i = i + 1;
    }
    assert(string_views(names@).take(i as int) =~= string_views(names@));
    sort_names(picked)
}

/// Sorts names in ascending order.
pub fn sort_names(v: Vec<String>) -> (r: Vec<String>)
    ensures
        names_sorted(string_views(r@)),
        string_views(r@).to_multiset() == string_views(v@).to_multiset(),
{
    broadcast use vstd::seq_lib::to_multiset_insert;
    let ghost orig = string_views(v@);
    let mut out: Vec<String> = Vec::new();
    let mut i: usize = 0;
    assert(string_views(out@) =~= orig.take(0));
    while i < v.len()
        invariant
            i <= v.len(),
            orig == string_views(v@),
            names_sorted(string_views(out@)),
            string_views(out@).to_multiset() == orig.take(i as int).to_multiset(),
        decreases v.len() - i,
    {
        let x = v[i].clone();
        let xs = chars_of(x.as_str());
        let mut j: usize = 0;
        while j < out.len()
            invariant
                j <= out.len(),
                xs@ == x@,
                forall|k: int| 0 <= k < j ==> !lex_lt(x@, #[trigger] string_views(out@)[k]),
            ensures
                j <= out.len(),
                forall|k: int| 0 <= k < j ==> !lex_lt(x@, #[trigger] string_views(out@)[k]),
                j < out.len() ==> lex_lt(x@, string_views(out@)[j as int]),
            decreases out.len() - j,
        {
            let oj = chars_of(out[j].as_str());
            assert(string_views(out@)[j as int] == out@[j as int]@);
            if crate::text::lex_less(&xs, &oj) {
                break;
            }
            j = j + 1;
        }
        let ghost m = string_views(out@);
        out.insert(j, x);
        proof {
            let m2 = string_views(out@);
            assert(m2 =~= m.insert(j as int, x@));
            assert(orig.take(i + 1) =~= orig.take(i as int).push(x@));
            vstd::seq_lib::to_multiset_build(orig.take(i as int), x@);
            vstd::seq_lib::to_multiset_insert(m, j as int, x@);
            assert(x@ == orig[i as int]);
            assert forall|a: int, b: int| 0 <= a < b < m2.len() implies lex_le(#[trigger] m2[a], #[trigger] m2[b]) by {
                if b < j {
                    assert(m2[a] == m[a] && m2[b] == m[b]);
                } else if b == j {
                    assert(m2[a] == m[a]);
                    crate::text::lemma_lex_total(m[a], x@);
                } else if a == j {
                    assert(m2[b] == m[b - 1]);
                    if b - 1 > j {
                        assert(lex_le(m[j as int], m[b - 1]));
                        if lex_lt(m[j as int], m[b - 1]) {
                            crate::text::lemma_lex_transitive(x@, m[j as int], m[b - 1]);
                        }
                    }
                } else if a < j {
                    assert(m2[a] == m[a] && m2[b] == m[b - 1]);
                } else {
                    assert(m2[a] == m[a - 1] && m2[b] == m[b - 1]);
                }
            }
        }
        i = i + 1;
    }
    assert(orig.take(i as int) =~= orig);
    out
}

} // verus!

verus! {

/// A table with its primary key, as scripts define models.
pub struct ModelDef {
    pub table: String,
    pub primary_key: String,
}

/// A query under construction: conditions (column, operator, value), an
/// optional ordering, limit and offset.
pub struct QueryBuilder<P> {
    pub table: String,
    pub wheres: Vec<(String, String, P)>,
    pub order_by: Option<String>,
    pub limit: Option<i64>,
    pub offset: Option<i64>,
}

/// The columns and operators of a list of conditions.
pub open spec fn cond_views<P>(w: Seq<(String, String, P)>) -> Seq<(Seq<char>, Seq<char>)> {
    Seq::new(w.len(), |i: int| (w[i].0@, w[i].1@))
}

/// The text of an optional string.
pub open spec fn opt_text(o: Option<String>) -> Option<Seq<char>> {
    match o {
        Some(s) => Some(s@),
        None => None,
    }
}

/// The `SELECT` of a query: its conditions, then ` ORDER BY` and the
/// ordering where there is one, then ` LIMIT 1` for a first-row query, or
/// else ` LIMIT` and ` OFFSET` where they are set.
pub open spec fn select_sql_spec(
    table: Seq<char>,
    conds: Seq<(Seq<char>, Seq<char>)>,
    order: Option<Seq<char>>,
    limit: Option<i64>,
    offset: Option<i64>,
    is_first: bool,
) -> Seq<char> {
    let ord = match order {
        Some(o) => " ORDER BY "@ + o,
        None => Seq::empty(),
    };
    let lim = match limit {
        Some(l) => " LIMIT "@ + int_decimal(l as int),
        None => Seq::empty(),
    };
    let off = match offset {
        Some(o) => " OFFSET "@ + int_decimal(o as int),
        None => Seq::empty(),
    };
    "SELECT * FROM "@ + table + where_clause(conds) + ord + if is_first {
        " LIMIT 1"@
    } else {
        lim + off
    }
}

/// References to the values of the conditions, in order.
pub open spec fn params_are<P>(r: Seq<&P>, w: Seq<(String, String, P)>) -> bool {
    &&& r.len() == w.len()
    &&& forall|i: int| 0 <= i < w.len() ==> *#[trigger] r[i] == w[i].2
}

impl<P> QueryBuilder<P> {
    /// The conditions as column and operator.
    pub open spec fn conds(&self) -> Seq<(Seq<char>, Seq<char>)> {
        cond_views(self.wheres@)
    }

    /// A query on `table` with no condition, ordering, limit or offset.
    pub fn new(table: &str) -> (q: Self)
        ensures
            q.table@ == table@,
            q.wheres@.len() == 0,
            q.order_by is None,
            q.limit is None,
            q.offset is None,
    {
        QueryBuilder { table: table.to_owned(), wheres: Vec::new(), order_by: None, limit: None, offset: None }
    }

    /// Adds the condition `col op ?` with `val` for its parameter.
    pub fn where_op(&mut self, col: &str, op: &str, val: P)
        ensures
            final(self).wheres@.len() == old(self).wheres@.len() + 1,
            final(self).wheres@.drop_last() == old(self).wheres@,
            final(self).wheres@.last().0@ == col@,
            final(self).wheres@.last().1@ == op@,
            final(self).wheres@.last().2 == val,
            final(self).table == old(self).table,
            final(self).order_by == old(self).order_by,
            final(self).limit == old(self).limit,
            final(self).offset == old(self).offset,
    {
        self.wheres.push((col.to_owned(), op.to_owned(), val));
        assert(self.wheres@.drop_last() =~= old(self).wheres@);
    }

    /// Adds the condition `col = ?` with `val` for its parameter.
    pub fn where_eq(&mut self, col: &str, val: P)
        ensures
            final(self).wheres@.len() == old(self).wheres@.len() + 1,
            final(self).wheres@.drop_last() == old(self).wheres@,
            final(self).wheres@.last().0@ == col@,
            final(self).wheres@.last().1@ == "="@,
            final(self).wheres@.last().2 == val,
            final(self).table == old(self).table,
            final(self).order_by == old(self).order_by,
            final(self).limit == old(self).limit,
            final(self).offset == old(self).offset,
    {
        self.where_op(col, "=", val);
    }

    /// Orders the rows by `col` in direction `dir`.
    pub fn order_by_clause(&mut self, col: &str, dir: &str)
        ensures
            final(self).order_by matches Some(o) && o@ == col@ + " "@ + dir@,
            final(self).table == old(self).table,
            final(self).wheres == old(self).wheres,
            final(self).limit == old(self).limit,
            final(self).offset == old(self).offset,
    {
        let mut o: Vec<char> = Vec::new();
        push_str(&mut o, col);
        push_str(&mut o, " ");
        push_str(&mut o, dir);
        self.order_by = Some(string_of(&o));
    }

    /// Sets the limit.
    pub fn set_limit(&mut self, n: i64)
        ensures
            final(self).limit == Some(n),
            final(self).table == old(self).table,
            final(self).wheres == old(self).wheres,
            final(self).order_by == old(self).order_by,
            final(self).offset == old(self).offset,
    {
        self.limit = Some(n);
    }

    /// Sets the offset.
    pub fn set_offset(&mut self, n: i64)
        ensures
            final(self).offset == Some(n),
            final(self).table == old(self).table,
            final(self).wheres == old(self).wheres,
            final(self).order_by == old(self).order_by,
            final(self).limit == old(self).limit,
    {
        self.offset = Some(n);
    }

    /// Appends the ` WHERE` part of the conditions; returns their values.
    fn push_where<'a>(&'a self, out: &mut Vec<char>) -> (r: Vec<&'a P>)
        ensures
            final(out)@ == old(out)@ + where_clause(self.conds()),
            params_are(r@, self.wheres@),
    {
        let mut pieces: Vec<Vec<char>> = Vec::new();
        let mut params: Vec<&'a P> = Vec::new();
        let mut i: usize = 0;
        while i < self.wheres.len()
            invariant
                i <= self.wheres.len(),
                views_of(pieces@) == Seq::new(
                    i as nat,
                    |k: int| where_piece(self.conds()[k].0, self.conds()[k].1),
                ),
                params_are(params@, self.wheres@.take(i as int)),
            decreases self.wheres.len() - i,
        {
            let mut p = chars_of(self.wheres[i].0.as_str());
            push_str(&mut p, " ");
            push_str(&mut p, self.wheres[i].1.as_str());
            push_str(&mut p, " ?");
            let ghost before = pieces@;
            let ghost pv = p@;
            pieces.push(p);
            assert(views_of(pieces@) =~= views_of(before).push(pv));
            params.push(&self.wheres[i].2);
            i = i + 1;
            assert(views_of(pieces@) =~= Seq::new(
                i as nat,
                |k: int| where_piece(self.conds()[k].0, self.conds()[k].1),
            ));
        }
        assert(self.wheres@.take(i as int) =~= self.wheres@);
        if self.wheres.len() > 0 {
            push_str(out, " WHERE ");
            let sep = chars_of(" AND ");
            let joined = join_chars(&pieces, &sep);
            push_all(out, &joined);
        }
        params
    }

    /// The query's `SELECT` (see [`select_sql_spec`]) and its parameters.
    pub fn build_select_sql(&self, is_first: bool) -> (r: (String, Vec<&P>))
        ensures
            r.0@ == select_sql_spec(
                self.table@,
                self.conds(),
                opt_text(self.order_by),
                self.limit,
                self.offset,
                is_first,
            ),
            params_are(r.1@, self.wheres@),
    {
        let mut out: Vec<char> = Vec::new();
        push_str(&mut out, "SELECT * FROM ");
        push_str(&mut out, self.table.as_str());
        let params = self.push_where(&mut out);
        match &self.order_by {
            Some(o) => {
                push_str(&mut out, " ORDER BY ");
                push_str(&mut out, o.as_str());
            },
            None => {},
        }
        if is_first {
            push_str(&mut out, " LIMIT 1");
        } else {
            match self.limit {
                Some(l) => {
                    push_str(&mut out, " LIMIT ");
                    push_signed_decimal(&mut out, l);
                },
                None => {},
            }
            match self.offset {
                Some(o) => {
                    push_str(&mut out, " OFFSET ");
                    push_signed_decimal(&mut out, o);
                },
                None => {},
            }
        }
        (string_of(&out), params)
    }

    /// The query's count statement and its parameters.
    pub fn count_sql(&self) -> (r: (String, Vec<&P>))
        ensures
            r.0@ == "SELECT COUNT(*) as count FROM "@ + self.table@ + where_clause(self.conds()),
            params_are(r.1@, self.wheres@),
    {
        let mut out: Vec<char> = Vec::new();
        push_str(&mut out, "SELECT COUNT(*) as count FROM ");
        push_str(&mut out, self.table.as_str());
        let params = self.push_where(&mut out);
        (string_of(&out), params)
    }

    /// The query's delete statement and its parameters.
    pub fn delete_sql(&self) -> (r: (String, Vec<&P>))
        ensures
            r.0@ == "DELETE FROM "@ + self.table@ + where_clause(self.conds()),
            params_are(r.1@, self.wheres@),
    {
        let mut out: Vec<char> = Vec::new();
        push_str(&mut out, "DELETE FROM ");
        push_str(&mut out, self.table.as_str());
        let params = self.push_where(&mut out);
        (string_of(&out), params)
    }

    /// The query's update statement for the given columns, or `None` for no
    /// columns (nothing is updated). Its parameters are the new values in
    /// column order, then the returned condition values.
    pub fn update_sql(&self, cols: &Vec<String>) -> (r: Option<(String, Vec<&P>)>)
        ensures
            cols@.len() == 0 ==> r is None,
            cols@.len() > 0 ==> (r matches Some(u) && u.0@ == "UPDATE "@ + self.table@ + " SET "@
                + join_spec(Seq::new(cols@.len(), |i: int| set_piece(cols@[i]@)), ", "@)
                + where_clause(self.conds()) && params_are(u.1@, self.wheres@)),
    {
        if cols.len() == 0 {
            return None;
        }
        let sets = column_pieces(cols, " = ?");
        let sep = chars_of(", ");
        let mut out: Vec<char> = Vec::new();
        push_str(&mut out, "UPDATE ");
        push_str(&mut out, self.table.as_str());
        push_str(&mut out, " SET ");
        let joined = join_chars(&sets, &sep);
        assert(views_of(sets@) =~= Seq::new(cols@.len(), |i: int| set_piece(cols@[i]@)));
        push_all(&mut out, &joined);
        let params = self.push_where(&mut out);
        Some((string_of(&out), params))
    }
}

impl ModelDef {
    /// A model of `table` keyed by `id`.
    pub fn new(table: &str) -> (m: Self)
        ensures
            m.table@ == table@,
            m.primary_key@ == "id"@,
    {
        ModelDef { table: table.to_owned(), primary_key: "id".to_owned() }
    }

    /// A model of `table` keyed by `primary_key`.
    pub fn with_pk(table: &str, primary_key: &str) -> (m: Self)
        ensures
            m.table@ == table@,
            m.primary_key@ == primary_key@,
    {
        ModelDef { table: table.to_owned(), primary_key: primary_key.to_owned() }
    }

    /// The statement that reads every row, newest key first.
    pub fn all_sql(&self) -> (r: String)
        ensures
            r@ == "SELECT * FROM "@ + self.table@ + " ORDER BY "@ + self.primary_key@ + " DESC"@,
    {
        let mut out: Vec<char> = Vec::new();
        push_str(&mut out, "SELECT * FROM ");
        push_str(&mut out, self.table.as_str());
        push_str(&mut out, " ORDER BY ");
        push_str(&mut out, self.primary_key.as_str());
        push_str(&mut out, " DESC");
        string_of(&out)
    }

    /// The statement that reads the row with a key.
    pub fn find_sql(&self) -> (r: String)
        ensures
            r@ == "SELECT * FROM "@ + self.table@ + " WHERE "@ + self.primary_key@ + " = ? LIMIT 1"@,
    {
        let mut out: Vec<char> = Vec::new();
        push_str(&mut out, "SELECT * FROM ");
        push_str(&mut out, self.table.as_str());
        push_str(&mut out, " WHERE ");
        push_str(&mut out, self.primary_key.as_str());
        push_str(&mut out, " = ? LIMIT 1");
        string_of(&out)
    }

    /// The statement that counts the rows.
    pub fn count_sql(&self) -> (r: String)
        ensures
            r@ == "SELECT COUNT(*) as count FROM "@ + self.table@,
    {
        let mut out: Vec<char> = Vec::new();
        push_str(&mut out, "SELECT COUNT(*) as count FROM ");
        push_str(&mut out, self.table.as_str());
        string_of(&out)
    }

    /// A query on the model's table.
    pub fn query_builder<P>(&self) -> (q: QueryBuilder<P>)
        ensures
            q.table@ == self.table@,
            q.wheres@.len() == 0,
            q.order_by is None,
            q.limit is None,
            q.offset is None,
    {
        QueryBuilder::new(self.table.as_str())
    }
}

} // verus!

verus! {

/// The error of a migration that failed: its file name and the database's
/// message.
pub fn migration_error(name: &str, message: &str) -> (r: String)
    ensures
        r@ == "Migration error in "@ + name@ + ": "@ + message@,
{
    let mut out: Vec<char> = Vec::new();
    push_str(&mut out, "Migration error in ");
    push_str(&mut out, name);
    push_str(&mut out, ": ");
    push_str(&mut out, message);
    string_of(&out)
}

} // verus!

verus! {

/// How a `SELECT` is put together, for every table, condition list,
/// ordering, limit and offset: the bare statement is `SELECT * FROM`, the
/// table and the `WHERE` clause; an ordering appends ` ORDER BY` and the
/// ordering; a limit appends ` LIMIT` and its decimal whether or not an
/// offset is set; an offset then appends ` OFFSET` and its decimal; and a
/// first-row query ends in ` LIMIT 1` whatever its limit and offset.
pub proof fn law_select_parts(
    table: Seq<char>,
    conds: Seq<(Seq<char>, Seq<char>)>,
    order: Option<Seq<char>>,
    limit: Option<i64>,
    offset: Option<i64>,
    l: i64,
    n: i64,
    o: Seq<char>,
)
    ensures
        select_sql_spec(table, conds, None, None, None, false) == "SELECT * FROM "@ + table
            + where_clause(conds),
        select_sql_spec(table, conds, Some(o), None, None, false) == select_sql_spec(
            table,
            conds,
            None,
            None,
            None,
            false,
        ) + " ORDER BY "@ + o,
        select_sql_spec(table, conds, order, Some(l), None, false) == select_sql_spec(
            table,
            conds,
            order,
            None,
            None,
            false,
        ) + " LIMIT "@ + int_decimal(l as int),
        select_sql_spec(table, conds, order, limit, Some(n), false) == select_sql_spec(
            table,
            conds,
            order,
            limit,
            None,
            false,
        ) + " OFFSET "@ + int_decimal(n as int),
        select_sql_spec(table, conds, order, limit, offset, true) == select_sql_spec(
            table,
            conds,
            order,
            None,
            None,
            false,
        ) + " LIMIT 1"@,
{
    let base = "SELECT * FROM "@ + table + where_clause(conds);
    assert(base + Seq::<char>::empty() + (Seq::<char>::empty() + Seq::<char>::empty()) =~= base);
    assert(base + (" ORDER BY "@ + o) + (Seq::<char>::empty() + Seq::<char>::empty()) =~= base + Seq::<char>::empty() + (Seq::<char>::empty() + Seq::<char>::empty()) + " ORDER BY "@ + o);
    let ord = match order {
        Some(x) => " ORDER BY "@ + x,
        None => Seq::<char>::empty(),
    };
    let lim = match limit {
        Some(x) => " LIMIT "@ + int_decimal(x as int),
        None => Seq::<char>::empty(),
    };
    assert(base + ord + (" LIMIT "@ + int_decimal(l as int) + Seq::<char>::empty()) =~= base + ord + (Seq::<char>::empty() + Seq::<char>::empty()) + " LIMIT "@ + int_decimal(l as int));
    assert(base + ord + (lim + (" OFFSET "@ + int_decimal(n as int))) =~= base + ord + (lim + Seq::<char>::empty()) + " OFFSET "@ + int_decimal(n as int));
    assert(base + ord + " LIMIT 1"@ =~= base + ord + (Seq::<char>::empty() + Seq::<char>::empty()) + " LIMIT 1"@);
}

/// How the `WHERE` part grows: no conditions give nothing; one condition
/// `col op` gives ` WHERE col op ?`; each further condition appends
/// ` AND col op ?`, in the order the conditions were added.
pub proof fn law_where_clause_grows(conds: Seq<(Seq<char>, Seq<char>)>, col: Seq<char>, op: Seq<char>)
    ensures
        where_clause(Seq::empty()) == Seq::<char>::empty(),
        where_clause(seq![(col, op)]) == " WHERE "@ + col + " "@ + op + " ?"@,
        conds.len() > 0 ==> where_clause(conds.push((col, op))) == where_clause(conds) + " AND "@ + col
            + " "@ + op + " ?"@,
{
    let one = Seq::new(1, |i: int| where_piece(seq![(col, op)][i].0, seq![(col, op)][i].1));
    assert(join_spec(one, " AND "@) == one[0]);
    assert(" WHERE "@ + where_piece(col, op) =~= " WHERE "@ + col + " "@ + op + " ?"@);
    if conds.len() > 0 {
        let c2 = conds.push((col, op));
        let ps = Seq::new(c2.len(), |i: int| where_piece(c2[i].0, c2[i].1));
        let p1 = Seq::new(conds.len(), |i: int| where_piece(conds[i].0, conds[i].1));
        assert(ps.drop_last() =~= p1);
        assert(ps.last() == where_piece(col, op));
        assert(join_spec(ps, " AND "@) == join_spec(p1, " AND "@) + " AND "@ + where_piece(col, op));
        assert(" WHERE "@ + join_spec(ps, " AND "@) =~= " WHERE "@ + join_spec(p1, " AND "@) + " AND "@ + col
            + " "@ + op + " ?"@);
    }
}

} // verus!
