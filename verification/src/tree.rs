//! The part of a parsed `SELECT` that the rewriter reads and writes, as a
//! tree of the library's own. What the rewriter does not look into stays in
//! the tree as the parser made it.

use vstd::prelude::*;
use vstd::string::*;
use sqlparser::ast::BinaryOperator;
use sqlparser::ast::Expr;
use sqlparser::ast::GroupByExpr;
use sqlparser::ast::Ident;
use sqlparser::ast::Join;
use sqlparser::ast::Select;
use sqlparser::ast::SelectItem;
use sqlparser::ast::TableAlias;
use sqlparser::ast::TableFactor;
use sqlparser::ast::TableWithJoins;
use sqlparser::ast::UnaryOperator;
use crate::error::SidemanticError;
use crate::segment::opt_view;
use crate::sql::StatementParts;
use crate::sql::ExprParts;
use crate::sql::ExprPartsView;
use crate::sql::binary_of;
use crate::sql::call_of;
use crate::sql::column_of;
use crate::sql::visited_paths;
use crate::sql::expr_parts;
use crate::sql::nested_of;
use crate::sql::paths_view;
use crate::sql::rows_call_of;
use crate::sql::string_of;
use crate::sql::unary_of;
use crate::sql::admitted;
use crate::sql::alias_name;
use crate::sql::alias_of_name;
use crate::sql::aliased_of;
use crate::sql::equals_of;
use crate::sql::error_text;
use crate::sql::from_item_of;
use crate::sql::from_of;
use crate::sql::group_by_of;
use crate::sql::ident_of;
use crate::sql::item_parts;
use crate::sql::left_join_of;
use crate::sql::parsed_statements;
use crate::sql::positions_of;
use crate::sql::projection_of;
use crate::sql::from_parts;
use crate::sql::select_of;
use crate::sql::selection_of;
use crate::sql::statement_parts;
use crate::sql::subquery_of;
use crate::sql::table_alias;
use crate::sql::table_of;
use crate::sql::table_path;
use crate::sql::unnamed_of;
use crate::error::ErrorView;
use crate::error::lemma_try_map_end;
use crate::error::lemma_try_map_start;
use crate::error::lemma_try_map_step;
use crate::error::prepend;
use crate::error::try_map_from;
use crate::sql::ItemParts;
use crate::text::views;

verus! {

/// A qualified column name, `qualifier.name`.
#[derive(Debug)]
pub struct ColumnName {
    pub qualifier: String,
    pub name: String,
}

/// The mathematical content of a [`ColumnName`].
pub struct ColumnNameView {
    pub qualifier: Seq<char>,
    pub name: Seq<char>,
}

impl View for ColumnName {
    type V = ColumnNameView;

    open spec fn view(&self) -> ColumnNameView {
        ColumnNameView { qualifier: self.qualifier@, name: self.name@ }
    }
}

impl Clone for ColumnName {
    fn clone(&self) -> (r: Self)
        ensures
            r@ == self@,
    {
        ColumnName { qualifier: self.qualifier.clone(), name: self.name.clone() }
    }
}

/// The views of a list of column names.
pub open spec fn columns_view(v: Seq<ColumnName>) -> Seq<ColumnNameView> {
    v.map_values(|c: ColumnName| c@)
}

/// Copies of the given column names.
pub fn clone_columns(v: &Vec<ColumnName>) -> (r: Vec<ColumnName>)
    ensures
        columns_view(r@) == columns_view(v@),
{
    let mut out: Vec<ColumnName> = Vec::new();
    let mut i: usize = 0;
    while i < v.len()
        invariant
            i <= v.len(),
            out@.len() == i,
            forall|j: int| 0 <= j < i ==> out@[j]@ == v@[j]@,
        decreases v.len() - i,
    {
        out.push(v[i].clone());
        i = i + 1;
    }
    assert(columns_view(out@) =~= columns_view(v@));
    out
}

/// An expression. The first six kinds come from the parser; the last four
/// are what the rewriter puts in the place of a reference.
#[derive(Debug)]
pub enum SqlExpr {
    /// A column with one qualifier, as written.
    Column { qualifier: String, name: String, source: Expr },
    Binary { left: Box<SqlExpr>, op: BinaryOperator, right: Box<SqlExpr> },
    Unary { operator: UnaryOperator, operand: Box<SqlExpr> },
    Nested(Box<SqlExpr>),
    /// A function call as written: the parts of its name, and the
    /// qualified columns anywhere in it.
    Call { path: Vec<String>, columns: Vec<ColumnName>, source: Expr },
    /// Any other expression as written, with the qualified columns
    /// anywhere in it.
    Other { columns: Vec<ColumnName>, source: Expr },
    /// A column of a table under its alias.
    Field { qualifier: String, name: String },
    /// An aggregate over a column, or over the rows where there is no column.
    Aggregate { function: String, distinct: bool, column: Option<ColumnName> },
    /// A column truncated to a granularity.
    Truncated { granularity: String, qualifier: String, name: String },
    /// The SQL of a metric, and what the parser made of it.
    MetricSql { sql: String, tree: Box<SqlExpr> },
}

/// The mathematical content of a [`SqlExpr`].
pub enum ExprView {
    Column { qualifier: Seq<char>, name: Seq<char>, source: Expr },
    Binary { left: Box<ExprView>, op: BinaryOperator, right: Box<ExprView> },
    Unary { operator: UnaryOperator, operand: Box<ExprView> },
    Nested(Box<ExprView>),
    Call { path: Seq<Seq<char>>, columns: Seq<ColumnNameView>, source: Expr },
    Other { columns: Seq<ColumnNameView>, source: Expr },
    Field { qualifier: Seq<char>, name: Seq<char> },
    Aggregate { function: Seq<char>, distinct: bool, column: Option<ColumnNameView> },
    Truncated { granularity: Seq<char>, qualifier: Seq<char>, name: Seq<char> },
    MetricSql { sql: Seq<char>, tree: Box<ExprView> },
}

/// The view of an optional column name.
pub open spec fn opt_column_view(c: Option<ColumnName>) -> Option<ColumnNameView> {
    match c {
        Some(x) => Some(x@),
        None => None,
    }
}

impl View for SqlExpr {
    type V = ExprView;

    open spec fn view(&self) -> ExprView {
        self.content()
    }
}

impl SqlExpr {
    /// The mathematical content of the expression.
    pub open spec fn content(&self) -> ExprView
        decreases self,
    {
        match self {
            SqlExpr::Column { qualifier, name, source } => ExprView::Column {
                qualifier: qualifier@,
                name: name@,
                source: *source,
            },
            SqlExpr::Binary { left, op, right } => ExprView::Binary {
                left: Box::new(left.content()),
                op: *op,
                right: Box::new(right.content()),
            },
            SqlExpr::Unary { operator, operand } => ExprView::Unary {
                operator: *operator,
                operand: Box::new(operand.content()),
            },
            SqlExpr::Nested(inner) => ExprView::Nested(Box::new(inner.content())),
            SqlExpr::Call { path, columns, source } => ExprView::Call {
                path: views(path@),
                columns: columns_view(columns@),
                source: *source,
            },
            SqlExpr::Other { columns, source } => ExprView::Other {
                columns: columns_view(columns@),
                source: *source,
            },
            SqlExpr::Field { qualifier, name } => ExprView::Field {
                qualifier: qualifier@,
                name: name@,
            },
            SqlExpr::Aggregate { function, distinct, column } => ExprView::Aggregate {
                function: function@,
                distinct: *distinct,
                column: opt_column_view(*column),
            },
            SqlExpr::Truncated { granularity, qualifier, name } => ExprView::Truncated {
                granularity: granularity@,
                qualifier: qualifier@,
                name: name@,
            },
            SqlExpr::MetricSql { sql, tree } => ExprView::MetricSql {
                sql: sql@,
                tree: Box::new(tree.content()),
            },
        }
    }
}

impl ExprView {
    /// Whether the expression holds only what a parser hands out: nothing
    /// that the rewriter puts in.
    pub open spec fn written(self) -> bool
        decreases self,
    {
        match self {
            ExprView::Column { .. } => true,
            ExprView::Binary { left, op, right } => left.written() && right.written(),
            ExprView::Unary { operator, operand } => operand.written(),
            ExprView::Nested(inner) => inner.written(),
            ExprView::Call { .. } => true,
            ExprView::Other { .. } => true,
            _ => false,
        }
    }
}

/// A copy of an expression.
pub fn clone_expr(e: &SqlExpr) -> (r: SqlExpr)
    ensures
        r@ == e@,
    decreases e,
{
    match e {
        SqlExpr::Column { qualifier, name, source } => SqlExpr::Column {
            qualifier: qualifier.clone(),
            name: name.clone(),
            source: source.clone(),
        },
        SqlExpr::Binary { left, op, right } => SqlExpr::Binary {
            left: Box::new(clone_expr(left)),
            op: op.clone(),
            right: Box::new(clone_expr(right)),
        },
        SqlExpr::Unary { operator, operand } => SqlExpr::Unary {
            operator: operator.clone(),
            operand: Box::new(clone_expr(operand)),
        },
        SqlExpr::Nested(inner) => SqlExpr::Nested(Box::new(clone_expr(inner))),
        SqlExpr::Call { path, columns, source } => SqlExpr::Call {
            path: crate::model::clone_strings(path),
            columns: clone_columns(columns),
            source: source.clone(),
        },
        SqlExpr::Other { columns, source } => SqlExpr::Other {
            columns: clone_columns(columns),
            source: source.clone(),
        },
        SqlExpr::Field { qualifier, name } => SqlExpr::Field {
            qualifier: qualifier.clone(),
            name: name.clone(),
        },
        SqlExpr::Aggregate { function, distinct, column } => SqlExpr::Aggregate {
            function: function.clone(),
            distinct: *distinct,
            column: match column {
                Some(c) => Some(c.clone()),
                None => None,
            },
        },
        SqlExpr::Truncated { granularity, qualifier, name } => SqlExpr::Truncated {
            granularity: granularity.clone(),
            qualifier: qualifier.clone(),
            name: name.clone(),
        },
        SqlExpr::MetricSql { sql, tree } => SqlExpr::MetricSql {
            sql: sql.clone(),
            tree: Box::new(clone_expr(tree)),
        },
    }
}

/// The multi-part identifiers with exactly two parts among what a visit
/// found, from `i` on, each as a qualified column name.
pub open spec fn two_part_from(found: Seq<Option<Seq<Seq<char>>>>, i: int) -> Seq<ColumnNameView>
    decreases found.len() - i,
{
    if i < 0 || i >= found.len() {
        Seq::empty()
    } else {
        match found[i] {
            Some(p) => if p.len() == 2 {
                seq![ColumnNameView { qualifier: p[0], name: p[1] }] + two_part_from(found, i + 1)
            } else {
                two_part_from(found, i + 1)
            },
            None => two_part_from(found, i + 1),
        }
    }
}

/// The multi-part identifiers with exactly two parts among what a visit
/// found.
pub fn two_part_columns(found: &Vec<Option<Vec<String>>>) -> (r: Vec<ColumnName>)
    ensures
        columns_view(r@) == two_part_from(paths_view(found@), 0),
{
    let ghost all = paths_view(found@);
    let mut out: Vec<ColumnName> = Vec::new();
    let mut i: usize = found.len();
    assert(columns_view(out@) =~= two_part_from(all, i as int));
    while i > 0
        invariant
            i <= found.len(),
            all == paths_view(found@),
            columns_view(out@) == two_part_from(all, i as int),
        decreases i,
    {
        i = i - 1;
        assert(all[i as int] == crate::sql::path_view(found@[i as int]));
        match &found[i] {
            Some(parts) => {
                if parts.len() == 2 {
                    let c = ColumnName { qualifier: parts[0].clone(), name: parts[1].clone() };
                    assert(views(parts@)[0] == parts@[0]@);
                    assert(views(parts@)[1] == parts@[1]@);
                    let ghost prev = columns_view(out@);
                    out.insert(0, c);
                    assert(columns_view(out@) =~= seq![c@] + prev);
                }
            },
            None => {},
        }
    }
    out
}

/// An expression that the rewriter does not look into, with the qualified
/// columns in it.
pub open spec fn opaque_view(e: Expr) -> ExprView {
    ExprView::Other { columns: two_part_from(visited_paths(e), 0), source: e }
}

/// The tree of an expression of the parser, down to `depth` levels: a
/// multi-part identifier of two parts is a column; binary, unary and
/// parenthesized expressions are looked into; a function call keeps the
/// parts of its name; anything else, and what lies deeper, stays whole.
pub open spec fn lifted_expr(e: Expr, depth: nat) -> ExprView
    decreases depth,
{
    if depth == 0 {
        opaque_view(e)
    } else {
        match expr_parts(e) {
            ExprPartsView::Compound(parts, source) => if parts.len() == 2 {
                ExprView::Column { qualifier: parts[0], name: parts[1], source }
            } else {
                opaque_view(source)
            },
            ExprPartsView::Binary(left, op, right) => ExprView::Binary {
                left: Box::new(lifted_expr(left, (depth - 1) as nat)),
                op,
                right: Box::new(lifted_expr(right, (depth - 1) as nat)),
            },
            ExprPartsView::Unary(operator, operand) => ExprView::Unary {
                operator,
                operand: Box::new(lifted_expr(operand, (depth - 1) as nat)),
            },
            ExprPartsView::Nested(inner) => ExprView::Nested(
                Box::new(lifted_expr(inner, (depth - 1) as nat)),
            ),
            ExprPartsView::Function(path, source) => ExprView::Call {
                path,
                columns: two_part_from(visited_paths(source), 0),
                source,
            },
            ExprPartsView::Other(source) => opaque_view(source),
        }
    }
}

/// The expression of the parser as a tree, down to `depth` levels. What
/// lies deeper stays as the parser made it.
pub fn lift_expr(e: Expr, depth: usize) -> (r: SqlExpr)
    ensures
        r@ == lifted_expr(e, depth as nat),
        r@.written(),
    decreases depth,
{
    if depth == 0 {
        return opaque_expr(e);
    }
    match crate::sql::split_expr(e) {
        ExprParts::Compound(parts, source) => {
            if parts.len() == 2 {
                assert(views(parts@)[0] == parts@[0]@);
                assert(views(parts@)[1] == parts@[1]@);
                SqlExpr::Column {
                    qualifier: parts[0].clone(),
                    name: parts[1].clone(),
                    source,
                }
            } else {
                opaque_expr(source)
            }
        },
        ExprParts::Binary(left, op, right) => SqlExpr::Binary {
            left: Box::new(lift_expr(left, depth - 1)),
            op,
            right: Box::new(lift_expr(right, depth - 1)),
        },
        ExprParts::Unary(operator, operand) => SqlExpr::Unary {
            operator,
            operand: Box::new(lift_expr(operand, depth - 1)),
        },
        ExprParts::Nested(inner) => SqlExpr::Nested(Box::new(lift_expr(inner, depth - 1))),
        ExprParts::Function(name, source) => {
            let found = crate::sql::visited_identifiers(&source);
            SqlExpr::Call { path: name, columns: two_part_columns(&found), source }
        },
        ExprParts::Other(source) => opaque_expr(source),
    }
}

/// An expression that the rewriter does not look into, with the qualified
/// columns in it.
fn opaque_expr(e: Expr) -> (r: SqlExpr)
    ensures
        r@ == opaque_view(e),
        r@.written(),
        r is Other,
{
    let found = crate::sql::visited_identifiers(&e);
    SqlExpr::Other { columns: two_part_columns(&found), source: e }
}

/// The expression of the parser that a tree stands for: what was written
/// as it was written; a column of a table, an aggregate and a truncated
/// column as the expressions that say so; the SQL of a metric as what the
/// parser made of it.
pub open spec fn lowered_expr(e: ExprView) -> Expr
    decreases e,
{
    match e {
        ExprView::Column { qualifier, name, source } => source,
        ExprView::Binary { left, op, right } => binary_of(
            lowered_expr(*left),
            op,
            lowered_expr(*right),
        ),
        ExprView::Unary { operator, operand } => unary_of(operator, lowered_expr(*operand)),
        ExprView::Nested(inner) => nested_of(lowered_expr(*inner)),
        ExprView::Call { path, columns, source } => source,
        ExprView::Other { columns, source } => source,
        ExprView::Field { qualifier, name } => column_of(qualifier, name),
        ExprView::Aggregate { function, distinct, column } => match column {
            Some(c) => call_of(function, distinct, seq![column_of(c.qualifier, c.name)]),
            None => rows_call_of(function, distinct),
        },
        ExprView::Truncated { granularity, qualifier, name } => call_of(
            "DATE_TRUNC"@,
            false,
            seq![string_of(granularity), column_of(qualifier, name)],
        ),
        ExprView::MetricSql { sql, tree } => lowered_expr(*tree),
    }
}

/// The tree as an expression of the parser.
pub fn lower_expr(e: SqlExpr) -> (r: Expr)
    ensures
        r == lowered_expr(e@),
    decreases e,
{
    match e {
        SqlExpr::Column { qualifier, name, source } => source,
        SqlExpr::Binary { left, op, right } => crate::sql::binary_expr(
            lower_expr(*left),
            op,
            lower_expr(*right),
        ),
        SqlExpr::Unary { operator, operand } => crate::sql::unary_expr(
            operator,
            lower_expr(*operand),
        ),
        SqlExpr::Nested(inner) => crate::sql::nested_expr(lower_expr(*inner)),
        SqlExpr::Call { path, columns, source } => source,
        SqlExpr::Other { columns, source } => source,
        SqlExpr::Field { qualifier, name } => crate::sql::column_expr(
            qualifier.as_str(),
            name.as_str(),
        ),
        SqlExpr::Aggregate { function, distinct, column } => {
            match column {
                Some(c) => {
                    let mut args: Vec<Expr> = Vec::new();
                    args.push(crate::sql::column_expr(c.qualifier.as_str(), c.name.as_str()));
                    assert(args@ =~= seq![column_of(c@.qualifier, c@.name)]);
                    crate::sql::call_on(function.as_str(), distinct, args)
                },
                None => crate::sql::call_on_rows(function.as_str(), distinct),
            }
        },
        SqlExpr::Truncated { granularity, qualifier, name } => {
            let mut args: Vec<Expr> = Vec::new();
            args.push(crate::sql::string_expr(granularity.as_str()));
            args.push(crate::sql::column_expr(qualifier.as_str(), name.as_str()));
            assert(args@ =~= seq![string_of(granularity@), column_of(qualifier@, name@)]);
            crate::sql::call_on("DATE_TRUNC", false, args)
        },
        SqlExpr::MetricSql { sql, tree } => lower_expr(*tree),
    }
}

/// How many levels deep the rewriter looks into an expression.
pub const LIFT_DEPTH: usize = 512;

/// An item of a select list.
#[derive(Debug)]
pub enum ProjectionItem {
    Unnamed(SqlExpr),
    /// An expression under the alias that was written for it.
    Aliased { expr: SqlExpr, alias: Ident },
    /// An expression under the name of the field that it stands for.
    Named { expr: SqlExpr, label: String },
    /// `*` and the like, as written.
    Wildcard(SelectItem),
}

/// The mathematical content of a [`ProjectionItem`].
pub enum ItemView {
    Unnamed(ExprView),
    Aliased { expr: ExprView, alias: Ident },
    Named { expr: ExprView, label: Seq<char> },
    Wildcard(SelectItem),
}

impl View for ProjectionItem {
    type V = ItemView;

    open spec fn view(&self) -> ItemView {
        match self {
            ProjectionItem::Unnamed(e) => ItemView::Unnamed(e@),
            ProjectionItem::Aliased { expr, alias } => ItemView::Aliased { expr: expr@, alias: *alias },
            ProjectionItem::Named { expr, label } => ItemView::Named { expr: expr@, label: label@ },
            ProjectionItem::Wildcard(i) => ItemView::Wildcard(*i),
        }
    }
}

impl ItemView {
    /// The expression of the item; none for a wildcard.
    pub open spec fn expr(self) -> Option<ExprView> {
        match self {
            ItemView::Unnamed(e) => Some(e),
            ItemView::Aliased { expr, alias } => Some(expr),
            ItemView::Named { expr, label } => Some(expr),
            ItemView::Wildcard(i) => None,
        }
    }

    /// Whether the item is as a parser hands it out.
    pub open spec fn written(self) -> bool {
        match self {
            ItemView::Unnamed(e) => e.written(),
            ItemView::Aliased { expr, alias } => expr.written(),
            ItemView::Named { expr, label } => false,
            ItemView::Wildcard(i) => true,
        }
    }
}

/// The views of a select list.
pub open spec fn items_view(v: Seq<ProjectionItem>) -> Seq<ItemView> {
    v.map_values(|i: ProjectionItem| i@)
}

/// Where the rows of a table come from: a table by its name, part by
/// part, or a subquery by its SQL.
#[derive(Debug)]
pub enum TableSource {
    Table(Vec<String>),
    Subquery(String),
}

/// The mathematical content of a [`TableSource`].
pub enum SourceView {
    Table(Seq<Seq<char>>),
    Subquery(Seq<char>),
}

impl View for TableSource {
    type V = SourceView;

    open spec fn view(&self) -> SourceView {
        match self {
            TableSource::Table(parts) => SourceView::Table(views(parts@)),
            TableSource::Subquery(sql) => SourceView::Subquery(sql@),
        }
    }
}

/// What stands after `FROM` or `JOIN`.
#[derive(Debug)]
pub enum TableRef {
    /// A table by name, as written: the parts of its name, the name of its
    /// alias if it has one, that alias as written, and the whole.
    Named {
        path: Vec<String>,
        alias_name: Option<String>,
        written_alias: Option<TableAlias>,
        source: TableFactor,
    },
    /// Anything else, as written.
    Other(TableFactor),
    /// The source of a model under an alias; the alias as written where
    /// the query had one.
    Physical { table: TableSource, alias: String, written_alias: Option<TableAlias> },
}

/// The mathematical content of a [`TableRef`].
pub enum TableRefView {
    Named {
        path: Seq<Seq<char>>,
        alias_name: Option<Seq<char>>,
        written_alias: Option<TableAlias>,
        source: TableFactor,
    },
    Other(TableFactor),
    Physical { table: SourceView, alias: Seq<char>, written_alias: Option<TableAlias> },
}

impl View for TableRef {
    type V = TableRefView;

    open spec fn view(&self) -> TableRefView {
        match self {
            TableRef::Named { path, alias_name, written_alias, source } => TableRefView::Named {
                path: views(path@),
                alias_name: opt_view(*alias_name),
                written_alias: *written_alias,
                source: *source,
            },
            TableRef::Other(t) => TableRefView::Other(*t),
            TableRef::Physical { table, alias, written_alias } => TableRefView::Physical {
                table: table@,
                alias: alias@,
                written_alias: *written_alias,
            },
        }
    }
}

impl Clone for TableSource {
    fn clone(&self) -> (r: Self)
        ensures
            r@ == self@,
    {
        match self {
            TableSource::Table(parts) => TableSource::Table(crate::model::clone_strings(parts)),
            TableSource::Subquery(sql) => TableSource::Subquery(sql.clone()),
        }
    }
}

/// A join that the rewriter adds:
/// `LEFT JOIN table AS alias ON from_alias.from_key = alias.to_key`.
#[derive(Debug)]
pub struct LeftJoin {
    pub table: TableSource,
    pub alias: String,
    pub from_alias: String,
    pub from_key: String,
    pub to_key: String,
}

/// The mathematical content of a [`LeftJoin`].
pub struct LeftJoinView {
    pub table: SourceView,
    pub alias: Seq<char>,
    pub from_alias: Seq<char>,
    pub from_key: Seq<char>,
    pub to_key: Seq<char>,
}

impl View for LeftJoin {
    type V = LeftJoinView;

    open spec fn view(&self) -> LeftJoinView {
        LeftJoinView {
            table: self.table@,
            alias: self.alias@,
            from_alias: self.from_alias@,
            from_key: self.from_key@,
            to_key: self.to_key@,
        }
    }
}

impl Clone for LeftJoin {
    fn clone(&self) -> (r: Self)
        ensures
            r@ == self@,
    {
        LeftJoin {
            table: self.table.clone(),
            alias: self.alias.clone(),
            from_alias: self.from_alias.clone(),
            from_key: self.from_key.clone(),
            to_key: self.to_key.clone(),
        }
    }
}

/// The views of a list of added joins.
pub open spec fn left_joins_view(v: Seq<LeftJoin>) -> Seq<LeftJoinView> {
    v.map_values(|j: LeftJoin| j@)
}

/// A join.
#[derive(Debug)]
pub enum JoinTree {
    /// A join as written.
    Written(Join),
    /// A join that the rewriter adds.
    Left(LeftJoin),
}

/// The mathematical content of a [`JoinTree`].
pub enum JoinView {
    Written(Join),
    Left(LeftJoinView),
}

impl View for JoinTree {
    type V = JoinView;

    open spec fn view(&self) -> JoinView {
        match self {
            JoinTree::Written(j) => JoinView::Written(*j),
            JoinTree::Left(j) => JoinView::Left(j@),
        }
    }
}

/// The views of a list of joins.
pub open spec fn joins_view(v: Seq<JoinTree>) -> Seq<JoinView> {
    v.map_values(|j: JoinTree| j@)
}

/// A table after `FROM` with the joins that follow it.
#[derive(Debug)]
pub struct FromItem {
    pub table: TableRef,
    pub joins: Vec<JoinTree>,
}

/// The mathematical content of a [`FromItem`].
pub struct FromView {
    pub table: TableRefView,
    pub joins: Seq<JoinView>,
}

impl View for FromItem {
    type V = FromView;

    open spec fn view(&self) -> FromView {
        FromView { table: self.table@, joins: joins_view(self.joins@) }
    }
}

/// The views of what stands after `FROM`.
pub open spec fn from_view(v: Seq<FromItem>) -> Seq<FromView> {
    v.map_values(|f: FromItem| f@)
}

/// The grouping of a `SELECT`.
#[derive(Debug)]
pub enum GroupBy {
    /// As written.
    Written(GroupByExpr),
    /// By the items of the select list at these places, counted from 1.
    Positions(Vec<usize>),
}

/// The mathematical content of a [`GroupBy`].
pub enum GroupByView {
    Written(GroupByExpr),
    Positions(Seq<usize>),
}

impl View for GroupBy {
    type V = GroupByView;

    open spec fn view(&self) -> GroupByView {
        match self {
            GroupBy::Written(g) => GroupByView::Written(*g),
            GroupBy::Positions(p) => GroupByView::Positions(p@),
        }
    }
}

/// A `SELECT`: its select list, what stands after `FROM`, its condition
/// and its grouping, and the statement as the parser made it, from which
/// everything else is taken.
#[derive(Debug)]
pub struct SelectTree {
    pub projection: Vec<ProjectionItem>,
    pub from: Vec<FromItem>,
    pub selection: Option<SqlExpr>,
    pub group_by: GroupBy,
    pub rest: Select,
}

/// The mathematical content of a [`SelectTree`].
pub struct SelectView {
    pub projection: Seq<ItemView>,
    pub from: Seq<FromView>,
    pub selection: Option<ExprView>,
    pub group_by: GroupByView,
    pub rest: Select,
}

/// The view of an optional expression.
pub open spec fn opt_expr_view(e: Option<SqlExpr>) -> Option<ExprView> {
    match e {
        Some(x) => Some(x@),
        None => None,
    }
}

impl View for SelectTree {
    type V = SelectView;

    open spec fn view(&self) -> SelectView {
        SelectView {
            projection: items_view(self.projection@),
            from: from_view(self.from@),
            selection: opt_expr_view(self.selection),
            group_by: self.group_by@,
            rest: self.rest,
        }
    }
}

/// The item of a select list of the parser as an item of the tree.
pub open spec fn lifted_item(item: SelectItem) -> ItemView {
    match item_parts(item) {
        ItemParts::Unnamed(e) => ItemView::Unnamed(lifted_expr(e, LIFT_DEPTH as nat)),
        ItemParts::Aliased(e, alias) => ItemView::Aliased {
            expr: lifted_expr(e, LIFT_DEPTH as nat),
            alias,
        },
        ItemParts::Other(i) => ItemView::Wildcard(i),
    }
}

/// The select list of the parser as items of the tree.
pub open spec fn lifted_items(items: Seq<SelectItem>) -> Seq<ItemView> {
    items.map_values(|i: SelectItem| lifted_item(i))
}

/// The select list of the parser as items of the tree.
fn lift_projection(items: Vec<SelectItem>) -> (r: Vec<ProjectionItem>)
    ensures
        items_view(r@) == lifted_items(items@),
        forall|i: int| 0 <= i < r@.len() ==> (#[trigger] r@[i])@.written(),
{
    let ghost all = items@;
    let n = items.len();
    let mut rest = items;
    let mut out: Vec<ProjectionItem> = Vec::new();
    let mut i: usize = 0;
    assert(rest@ =~= all.subrange(0, all.len() as int));
    assert(items_view(out@) =~= lifted_items(all.subrange(0, 0)));
    while i < n
        invariant
            i <= n,
            n == all.len(),
            all == items@,
            rest@ == all.subrange(i as int, all.len() as int),
            items_view(out@) == lifted_items(all.subrange(0, i as int)),
            forall|k: int| 0 <= k < out@.len() ==> (#[trigger] out@[k])@.written(),
        decreases n - i,
    {
        let ghost before = rest@;
        let item = rest.remove(0);
        assert(item == all[i as int]);
        assert(rest@ =~= all.subrange(i + 1, all.len() as int));
        let lifted = match crate::sql::split_item(item) {
            ItemParts::Unnamed(e) => ProjectionItem::Unnamed(lift_expr(e, LIFT_DEPTH)),
            ItemParts::Aliased(e, alias) => ProjectionItem::Aliased {
                expr: lift_expr(e, LIFT_DEPTH),
                alias,
            },
            ItemParts::Other(w) => ProjectionItem::Wildcard(w),
        };
        assert(lifted@ == lifted_item(all[i as int]));
        let ghost prev = items_view(out@);
        out.push(lifted);
        assert(items_view(out@) =~= prev.push(lifted@));
        assert(lifted_items(all.subrange(0, i + 1)) =~= lifted_items(
            all.subrange(0, i as int),
        ).push(lifted_item(all[i as int])));
        i = i + 1;
    }
    assert(all.subrange(0, n as int) =~= all);
    out
}

/// A table after `FROM` of the parser as a table of the tree: a table
/// written by name with the parts of its name and its alias, anything else
/// as it is.
pub open spec fn lifted_table(t: TableFactor) -> TableRefView {
    match table_path(t) {
        Some(path) => TableRefView::Named {
            path,
            alias_name: match table_alias(t) {
                Some(a) => Some(alias_name(a)),
                None => None,
            },
            written_alias: table_alias(t),
            source: t,
        },
        None => TableRefView::Other(t),
    }
}

/// The joins of the parser as joins of the tree.
pub open spec fn written_joins(joins: Seq<Join>) -> Seq<JoinView> {
    joins.map_values(|j: Join| JoinView::Written(j))
}

/// What stands at one place after `FROM`, as an item of the tree.
pub open spec fn lifted_from_item(t: TableWithJoins) -> FromView {
    FromView { table: lifted_table(from_parts(t).0), joins: written_joins(from_parts(t).1) }
}

/// What stands after `FROM`, as items of the tree.
pub open spec fn lifted_from(tables: Seq<TableWithJoins>) -> Seq<FromView> {
    tables.map_values(|t: TableWithJoins| lifted_from_item(t))
}

/// What stands after `FROM`, as items of the tree.
fn lift_from(tables: Vec<TableWithJoins>) -> (r: Vec<FromItem>)
    ensures
        from_view(r@) == lifted_from(tables@),
{
    let ghost all = tables@;
    let n = tables.len();
    let mut rest = tables;
    let mut out: Vec<FromItem> = Vec::new();
    let mut i: usize = 0;
    assert(rest@ =~= all.subrange(0, all.len() as int));
    assert(from_view(out@) =~= lifted_from(all.subrange(0, 0)));
    while i < n
        invariant
            i <= n,
            n == all.len(),
            all == tables@,
            rest@ == all.subrange(i as int, all.len() as int),
            from_view(out@) == lifted_from(all.subrange(0, i as int)),
        decreases n - i,
    {
        let whole = rest.remove(0);
        assert(whole == all[i as int]);
        assert(rest@ =~= all.subrange(i + 1, all.len() as int));
        let (relation, written) = crate::sql::split_from(whole);
        let table = match crate::sql::table_name_parts(&relation) {
            Some(path) => {
                let written_alias = crate::sql::table_alias_of(&relation);
                let alias_name = match &written_alias {
                    Some(a) => Some(crate::sql::alias_text(a)),
                    None => None,
                };
                TableRef::Named { path, alias_name, written_alias, source: relation }
            },
            None => TableRef::Other(relation),
        };
        assert(table@ == lifted_table(from_parts(all[i as int]).0));
        let ghost js = written@;
        let m = written.len();
        let mut joins_left = written;
        let mut joins: Vec<JoinTree> = Vec::new();
        let mut k: usize = 0;
        assert(joins_left@ =~= js.subrange(0, js.len() as int));
        assert(joins_view(joins@) =~= written_joins(js.subrange(0, 0)));
        while k < m
            invariant
                k <= m,
                m == js.len(),
                joins_left@ == js.subrange(k as int, js.len() as int),
                joins_view(joins@) == written_joins(js.subrange(0, k as int)),
            decreases m - k,
        {
            let j = joins_left.remove(0);
            assert(j == js[k as int]);
            assert(joins_left@ =~= js.subrange(k + 1, js.len() as int));
            let ghost prev = joins_view(joins@);
            joins.push(JoinTree::Written(j));
            assert(joins_view(joins@) =~= prev.push(JoinView::Written(j)));
            assert(written_joins(js.subrange(0, k + 1)) =~= written_joins(
                js.subrange(0, k as int),
            ).push(JoinView::Written(js[k as int])));
            k = k + 1;
        }
        assert(js.subrange(0, m as int) =~= js);
        let item = FromItem { table, joins };
        assert(item@ == lifted_from_item(all[i as int]));
        let ghost prev = from_view(out@);
        out.push(item);
        assert(from_view(out@) =~= prev.push(item@));
        assert(lifted_from(all.subrange(0, i + 1)) =~= lifted_from(all.subrange(0, i as int)).push(
            lifted_from_item(all[i as int]),
        ));
        i = i + 1;
    }
    assert(all.subrange(0, n as int) =~= all);
    out
}

/// The `SELECT` of the parser as a tree: its select list, what stands
/// after `FROM`, its condition and its grouping, and the `SELECT` itself
/// for everything else.
pub open spec fn lifted_select(s: Select) -> SelectView {
    SelectView {
        projection: lifted_items(projection_of(s)),
        from: lifted_from(from_of(s)),
        selection: match selection_of(s) {
            Some(e) => Some(lifted_expr(e, LIFT_DEPTH as nat)),
            None => None,
        },
        group_by: GroupByView::Written(group_by_of(s)),
        rest: s,
    }
}

/// The `SELECT` of the parser as a tree.
pub fn lift_select(select: Select) -> (r: SelectTree)
    ensures
        r@ == lifted_select(select),
        forall|i: int| 0 <= i < r@.projection.len() ==> (#[trigger] r@.projection[i]).written(),
        r.group_by is Written,
{
    let projection = lift_projection(crate::sql::select_projection(&select));
    let from = lift_from(crate::sql::select_from(&select));
    let selection = match crate::sql::select_selection(&select) {
        Some(e) => Some(lift_expr(e, LIFT_DEPTH)),
        None => None,
    };
    let group_by = GroupBy::Written(crate::sql::select_group_by(&select));
    SelectTree { projection, from, selection, group_by, rest: select }
}

/// The text of the complaint about the SQL of a model that is no query.
pub open spec fn subquery_complaint(sql: Seq<char>) -> Seq<char> {
    "Model SQL is not a query: "@ + sql
}

/// The table of the parser for a source under an alias: the table of
/// that name, or the subquery that the SQL parses to, which must be a text
/// that can be handed to the parser, one statement and a query.
pub open spec fn lowered_source(table: SourceView, alias: TableAlias) -> Result<
    TableFactor,
    ErrorView,
> {
    match table {
        SourceView::Table(parts) => Ok(table_of(parts, alias)),
        SourceView::Subquery(sql) => if !admitted(sql) {
            Err(ErrorView::SqlParse(subquery_complaint(sql)))
        } else {
            match parsed_statements(sql) {
                Err(e) => Err(ErrorView::SqlParse(error_text(e))),
                Ok(v) => if v.len() != 1 {
                    Err(ErrorView::SqlParse(subquery_complaint(sql)))
                } else {
                    match statement_parts(v[0]) {
                        StatementParts::Query(q) => Ok(subquery_of(q, alias)),
                        StatementParts::Other(o) => Err(
                            ErrorView::SqlParse(subquery_complaint(sql)),
                        ),
                    }
                },
            }
        },
    }
}

/// A table of the parser for a source under an alias. The SQL of a
/// subquery is parsed; it must be one query.
fn lower_source(table: TableSource, alias: TableAlias) -> (r: Result<TableFactor, SidemanticError>)
    ensures
        match r {
            Ok(t) => lowered_source(table@, alias) == Ok::<TableFactor, ErrorView>(t),
            Err(e) => lowered_source(table@, alias) == Err::<TableFactor, ErrorView>(e@),
        },
        r is Err ==> r->Err_0 is SqlParse,
        table is Table ==> r is Ok,
{
    match table {
        TableSource::Table(parts) => Ok(crate::sql::named_table(parts, alias)),
        TableSource::Subquery(sql) => {
            if !crate::sql::admits(sql.as_str()) {
                return Err(
                    SidemanticError::SqlParse(
                        crate::text::concat2("Model SQL is not a query: ", sql.as_str()),
                    ),
                );
            }
            let mut statements = match crate::sql::parse_statements(sql.as_str()) {
                Ok(s) => s,
                Err(e) => {
                    return Err(SidemanticError::SqlParse(crate::sql::parser_error_text(&e)));
                },
            };
            if statements.len() != 1 {
                return Err(
                    SidemanticError::SqlParse(
                        crate::text::concat2("Model SQL is not a query: ", sql.as_str()),
                    ),
                );
            }
            match crate::sql::split_statement(statements.remove(0)) {
                StatementParts::Query(q) => Ok(crate::sql::subquery_table(q, alias)),
                StatementParts::Other(_) => Err(
                    SidemanticError::SqlParse(
                        crate::text::concat2("Model SQL is not a query: ", sql.as_str()),
                    ),
                ),
            }
        },
    }
}

/// Whether a join needs no parsing to be written out: it is as written,
/// or joins a table by its name.
pub open spec fn join_is_plain(j: JoinView) -> bool {
    match j {
        JoinView::Written(w) => true,
        JoinView::Left(l) => l.table is Table,
    }
}

/// Whether what stands at one place after `FROM` needs no parsing to be
/// written out: no source of a model in it is a subquery.
pub open spec fn from_is_plain(f: FromView) -> bool {
    &&& match f.table {
        TableRefView::Physical { table, alias, written_alias } => table is Table,
        _ => true,
    }
    &&& forall|i: int| 0 <= i < f.joins.len() ==> join_is_plain(#[trigger] f.joins[i])
}

/// Whether a `SELECT` needs no parsing to be written out.
pub open spec fn select_is_plain(s: SelectView) -> bool {
    forall|i: int| 0 <= i < s.from.len() ==> from_is_plain(#[trigger] s.from[i])
}

/// The join of the parser that a join of the tree stands for: a written
/// join as it is, an added one as the `LEFT JOIN` of its source under its
/// alias on the equality of its two keys.
pub open spec fn lowered_join(j: JoinView) -> Result<Join, ErrorView> {
    match j {
        JoinView::Written(w) => Ok(w),
        JoinView::Left(l) => match lowered_source(l.table, alias_of_name(l.alias)) {
            Err(e) => Err(e),
            Ok(relation) => Ok(
                left_join_of(
                    relation,
                    equals_of(column_of(l.from_alias, l.from_key), column_of(l.alias, l.to_key)),
                ),
            ),
        },
    }
}

/// [`lowered_join`] as a function.
pub open spec fn lowered_join_fn() -> spec_fn(JoinView) -> Result<Join, ErrorView> {
    |j: JoinView| lowered_join(j)
}

/// The joins of the tree as joins of the parser, up to the first that
/// cannot be had.
fn lower_joins(joins: Vec<JoinTree>) -> (r: Result<Vec<Join>, SidemanticError>)
    ensures
        match r {
            Ok(v) => try_map_from(joins_view(joins@), lowered_join_fn(), 0) == Ok::<
                Seq<Join>,
                ErrorView,
            >(v@),
            Err(e) => try_map_from(joins_view(joins@), lowered_join_fn(), 0) == Err::<
                Seq<Join>,
                ErrorView,
            >(e@),
        },
        r is Err ==> r->Err_0 is SqlParse,
        (forall|i: int| 0 <= i < joins@.len() ==> join_is_plain(#[trigger] joins_view(joins@)[i]))
            ==> r is Ok,
{
    let ghost all = joins_view(joins@);
    let ghost f = lowered_join_fn();
    let n = joins.len();
    let mut rest = joins;
    let mut out: Vec<Join> = Vec::new();
    let mut i: usize = 0;
    proof {
        lemma_try_map_start(all, f);
        assert(joins_view(rest@) =~= all.subrange(0, all.len() as int));
    }
    while i < n
        invariant
            i <= n,
            n == all.len(),
            all == joins_view(joins@),
            f == lowered_join_fn(),
            joins_view(rest@) == all.subrange(i as int, all.len() as int),
            try_map_from(all, f, 0) == prepend(out@, try_map_from(all, f, i as int)),
        decreases n - i,
    {
        proof {
            lemma_try_map_step(all, f, i as int, out@);
        }
        let ghost before = joins_view(rest@);
        let ghost old_rest = rest@;
        assert(before.len() == n - i);
        let item = rest.remove(0);
        assert(item@ == before[0]);
        assert(rest@ =~= old_rest.remove(0));
        assert forall|j: int| 0 <= j < rest@.len() implies (#[trigger] joins_view(rest@)[j])
            == before[j + 1] by {
            assert(rest@[j] == old_rest[j + 1]);
        }
        assert(joins_view(rest@) =~= all.subrange(i + 1, all.len() as int));
        assert(item@ == all[i as int]);
        let lowered = match item {
            JoinTree::Written(j) => j,
            JoinTree::Left(LeftJoin { table, alias, from_alias, from_key, to_key }) => {
                let relation = match lower_source(table, crate::sql::plain_alias(alias.as_str())) {
                    Ok(t) => t,
                    Err(e) => {
                        assert(!join_is_plain(all[i as int]));
                        return Err(e);
                    },
                };
                let on = crate::sql::equals_expr(
                    crate::sql::column_expr(from_alias.as_str(), from_key.as_str()),
                    crate::sql::column_expr(alias.as_str(), to_key.as_str()),
                );
                crate::sql::left_join(relation, on)
            },
        };
        assert(f(all[i as int]) == Ok::<Join, ErrorView>(lowered));
        out.push(lowered);
        i = i + 1;
    }
    proof {
        lemma_try_map_end(all, f, i as int, out@);
    }
    Ok(out)
}

/// The item of a select list of the parser that an item of the tree
/// stands for.
pub open spec fn lowered_item(item: ItemView) -> SelectItem {
    match item {
        ItemView::Unnamed(e) => unnamed_of(lowered_expr(e)),
        ItemView::Aliased { expr, alias } => aliased_of(lowered_expr(expr), alias),
        ItemView::Named { expr, label } => aliased_of(lowered_expr(expr), ident_of(label)),
        ItemView::Wildcard(w) => w,
    }
}

/// The select list of the parser that the items of the tree stand for.
pub open spec fn lowered_items(items: Seq<ItemView>) -> Seq<SelectItem> {
    items.map_values(|i: ItemView| lowered_item(i))
}

/// What stands at one place after `FROM` for the parser: the table as
/// written, or the source of a model under its alias, as written where it
/// was written; then the joins.
pub open spec fn lowered_from_item(f: FromView) -> Result<TableWithJoins, ErrorView> {
    match (match f.table {
        TableRefView::Named { path, alias_name, written_alias, source } => Ok::<
            TableFactor,
            ErrorView,
        >(source),
        TableRefView::Other(t) => Ok(t),
        TableRefView::Physical { table, alias, written_alias } => lowered_source(
            table,
            match written_alias {
                Some(a) => a,
                None => alias_of_name(alias),
            },
        ),
    }) {
        Err(e) => Err(e),
        Ok(relation) => match try_map_from(f.joins, lowered_join_fn(), 0) {
            Err(e) => Err(e),
            Ok(joins) => Ok(from_item_of(relation, joins)),
        },
    }
}

/// [`lowered_from_item`] as a function.
pub open spec fn lowered_from_fn() -> spec_fn(FromView) -> Result<TableWithJoins, ErrorView> {
    |f: FromView| lowered_from_item(f)
}

/// The grouping of the parser that a grouping of the tree stands for.
pub open spec fn lowered_group_by(g: GroupByView) -> GroupByExpr {
    match g {
        GroupByView::Written(w) => w,
        GroupByView::Positions(p) => positions_of(p),
    }
}

/// The `SELECT` of the parser that a tree stands for: the `SELECT` that
/// the tree was made from, with the select list, what stands after
/// `FROM`, the condition and the grouping of the tree in the place of its
/// own. It cannot be had where the SQL of a model that stands for a table
/// does not parse as one query.
pub open spec fn lowered_select(t: SelectView) -> Result<Select, ErrorView> {
    match try_map_from(t.from, lowered_from_fn(), 0) {
        Err(e) => Err(e),
        Ok(tables) => Ok(
            select_of(
                t.rest,
                lowered_items(t.projection),
                tables,
                match t.selection {
                    Some(e) => Some(lowered_expr(e)),
                    None => None,
                },
                lowered_group_by(t.group_by),
            ),
        ),
    }
}

/// The tree as a `SELECT` of the parser. It fails only where the SQL of
/// a model that stands for a table does not parse as one query.
pub fn lower_select(tree: SelectTree) -> (r: Result<Select, SidemanticError>)
    ensures
        match r {
            Ok(s) => lowered_select(tree@) == Ok::<Select, ErrorView>(s),
            Err(e) => lowered_select(tree@) == Err::<Select, ErrorView>(e@),
        },
        r is Err ==> r->Err_0 is SqlParse,
        select_is_plain(tree@) ==> r is Ok,
{
    let ghost view = tree@;
    let ghost all = tree@.from;
    let ghost f = lowered_from_fn();
    let SelectTree { projection, from, selection, group_by, rest } = tree;
    let ghost shown = items_view(projection@);
    let count = projection.len();
    let mut items_left = projection;
    let mut items: Vec<SelectItem> = Vec::new();
    let mut p: usize = 0;
    assert(items_view(items_left@) =~= shown.subrange(0, shown.len() as int));
    assert(items@ =~= lowered_items(shown.subrange(0, 0)));
    while p < count
        invariant
            p <= count,
            count == shown.len(),
            items_view(items_left@) == shown.subrange(p as int, shown.len() as int),
            items@ == lowered_items(shown.subrange(0, p as int)),
        decreases count - p,
    {
        let ghost before = items_view(items_left@);
        let ghost old_left = items_left@;
        assert(before.len() == count - p);
        let taken = items_left.remove(0);
        assert(taken@ == before[0]);
        assert(items_left@ =~= old_left.remove(0));
        assert forall|j: int| 0 <= j < items_left@.len() implies (#[trigger] items_view(
            items_left@,
        )[j]) == before[j + 1] by {
            assert(items_left@[j] == old_left[j + 1]);
        }
        assert(items_view(items_left@) =~= shown.subrange(p + 1, shown.len() as int));
        assert(taken@ == shown[p as int]);
        let item = match taken {
            ProjectionItem::Unnamed(e) => crate::sql::unnamed_item(lower_expr(e)),
            ProjectionItem::Aliased { expr, alias } => crate::sql::aliased_item(
                lower_expr(expr),
                alias,
            ),
            ProjectionItem::Named { expr, label } => crate::sql::aliased_item(
                lower_expr(expr),
                crate::sql::plain_ident(label.as_str()),
            ),
            ProjectionItem::Wildcard(i) => i,
        };
        assert(item == lowered_item(shown[p as int]));
        let ghost prev = items@;
        items.push(item);
        assert(lowered_items(shown.subrange(0, p + 1)) =~= lowered_items(
            shown.subrange(0, p as int),
        ).push(lowered_item(shown[p as int])));
        p = p + 1;
    }
    assert(shown.subrange(0, count as int) =~= shown);
    let n = from.len();
    let mut from_left = from;
    let mut tables: Vec<TableWithJoins> = Vec::new();
    let mut i: usize = 0;
    proof {
        lemma_try_map_start(all, f);
        assert(from_view(from_left@) =~= all.subrange(0, all.len() as int));
    }
    while i < n
        invariant
            i <= n,
            n == all.len(),
            view == tree@,
            all == view.from,
            f == lowered_from_fn(),
            from_view(from_left@) == all.subrange(i as int, all.len() as int),
            try_map_from(all, f, 0) == prepend(tables@, try_map_from(all, f, i as int)),
        decreases n - i,
    {
        proof {
            lemma_try_map_step(all, f, i as int, tables@);
        }
        let ghost before = from_view(from_left@);
        let ghost old_left = from_left@;
        assert(before.len() == n - i);
        let item = from_left.remove(0);
        assert(item@ == before[0]);
        assert(from_left@ =~= old_left.remove(0));
        assert forall|j: int| 0 <= j < from_left@.len() implies (#[trigger] from_view(
            from_left@,
        )[j]) == before[j + 1] by {
            assert(from_left@[j] == old_left[j + 1]);
        }
        assert(from_view(from_left@) =~= all.subrange(i + 1, all.len() as int));
        assert(item@ == all[i as int]);
        let FromItem { table, joins } = item;
        let ghost item_joins = joins_view(joins@);
        assert(all[i as int].joins == item_joins);
        let relation = match table {
            TableRef::Named { path, alias_name, written_alias, source } => source,
            TableRef::Other(t) => t,
            TableRef::Physical { table, alias, written_alias } => {
                let alias_node = match written_alias {
                    Some(a) => a,
                    None => crate::sql::plain_alias(alias.as_str()),
                };
                match lower_source(table, alias_node) {
                    Ok(t) => t,
                    Err(e) => {
                        assert(!from_is_plain(all[i as int]));
                        return Err(e);
                    },
                }
            },
        };
        let lowered = match lower_joins(joins) {
            Ok(j) => j,
            Err(e) => {
                assert(!(forall|k: int|
                    0 <= k < item_joins.len() ==> join_is_plain(#[trigger] item_joins[k])));
                assert(!from_is_plain(all[i as int]));
                return Err(e);
            },
        };
        let whole = crate::sql::from_item(relation, lowered);
        assert(f(all[i as int]) == Ok::<TableWithJoins, ErrorView>(whole));
        tables.push(whole);
        i = i + 1;
    }
    proof {
        lemma_try_map_end(all, f, i as int, tables@);
    }
    let condition = match selection {
        Some(e) => Some(lower_expr(e)),
        None => None,
    };
    let grouping = match group_by {
        GroupBy::Written(g) => g,
        GroupBy::Positions(p) => crate::sql::positional_group_by(p),
    };
    Ok(crate::sql::select_with(rest, items, tables, condition, grouping))
}

} // verus!
