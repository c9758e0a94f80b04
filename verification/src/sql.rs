//! The SQL parser that the rewriter works with: its types, and the calls
//! that take its values apart and put them together. Verus sees nothing
//! inside these values; the rewriter decides on the plain values that the
//! calls hand out.
//!
//! What a call returns is given a name, a function of what the call is
//! handed. Nothing is claimed of a name but that: the values of the parser
//! have no content here, so a name takes and gives them as they are.

use vstd::prelude::*;
use vstd::string::*;
use crate::text::has_unnamed_third;
use crate::text::unnamed_third;
use crate::text::to_chars;
use crate::text::upper;
use crate::text::upper_chars;
use crate::text::views;
use core::ops::ControlFlow;
use sqlparser::ast::visit_expressions;
use sqlparser::ast::visit_statements;
use sqlparser::ast::BinaryOperator;
use sqlparser::ast::DuplicateTreatment;
use sqlparser::ast::Expr;
use sqlparser::ast::Function;
use sqlparser::ast::FunctionArg;
use sqlparser::ast::FunctionArgExpr;
use sqlparser::ast::FunctionArgumentList;
use sqlparser::ast::FunctionArguments;
use sqlparser::ast::GroupByExpr;
use sqlparser::ast::Ident;
use sqlparser::ast::Join;
use sqlparser::ast::JoinConstraint;
use sqlparser::ast::JoinOperator;
use sqlparser::ast::ObjectName;
use sqlparser::ast::Query;
use sqlparser::ast::Select;
use sqlparser::ast::SelectItem;
use sqlparser::ast::SetExpr;
use sqlparser::ast::Statement;
use sqlparser::ast::TableAlias;
use sqlparser::ast::TableFactor;
use sqlparser::ast::TableWithJoins;
use sqlparser::ast::UnaryOperator;
use sqlparser::ast::Value;
use sqlparser::dialect::GenericDialect;
use sqlparser::parser::Parser;
use sqlparser::parser::ParserError;

verus! {

/// `sqlparser::ast::Statement`, taken as a whole.
#[verifier::external_type_specification]
#[verifier::external_body]
pub struct ExStatement(Statement);

/// `sqlparser::ast::Query`, taken as a whole.
#[verifier::external_type_specification]
#[verifier::external_body]
pub struct ExQuery(Query);

/// `sqlparser::ast::SetExpr`, taken as a whole.
#[verifier::external_type_specification]
#[verifier::external_body]
pub struct ExSetExpr(SetExpr);

/// `sqlparser::ast::Select`, taken as a whole.
#[verifier::external_type_specification]
#[verifier::external_body]
pub struct ExSelect(Select);

/// `sqlparser::ast::SelectItem`, taken as a whole.
#[verifier::external_type_specification]
#[verifier::external_body]
pub struct ExSelectItem(SelectItem);

/// `sqlparser::ast::TableWithJoins`, taken as a whole.
#[verifier::external_type_specification]
#[verifier::external_body]
pub struct ExTableWithJoins(TableWithJoins);

/// `sqlparser::ast::TableFactor`, taken as a whole.
#[verifier::external_type_specification]
#[verifier::external_body]
pub struct ExTableFactor(TableFactor);

/// `sqlparser::ast::TableAlias`, taken as a whole.
#[verifier::external_type_specification]
#[verifier::external_body]
pub struct ExTableAlias(TableAlias);

/// `sqlparser::ast::Join`, taken as a whole.
#[verifier::external_type_specification]
#[verifier::external_body]
pub struct ExJoin(Join);

/// `sqlparser::ast::Expr`, taken as a whole.
#[verifier::external_type_specification]
#[verifier::external_body]
pub struct ExExpr(Expr);

/// `sqlparser::ast::BinaryOperator`, taken as a whole.
#[verifier::external_type_specification]
#[verifier::external_body]
pub struct ExBinaryOperator(BinaryOperator);

/// `sqlparser::ast::UnaryOperator`, taken as a whole.
#[verifier::external_type_specification]
#[verifier::external_body]
pub struct ExUnaryOperator(UnaryOperator);

/// `sqlparser::ast::Ident`, taken as a whole.
#[verifier::external_type_specification]
#[verifier::external_body]
pub struct ExIdent(Ident);

/// `sqlparser::ast::GroupByExpr`, taken as a whole.
#[verifier::external_type_specification]
#[verifier::external_body]
pub struct ExGroupByExpr(GroupByExpr);

/// `sqlparser::parser::ParserError`, taken as a whole.
#[verifier::external_type_specification]
#[verifier::external_body]
pub struct ExParserError(ParserError);

/// The derived `Clone` of `Expr` gives an equal expression.
pub assume_specification[ <Expr as Clone>::clone ](e: &Expr) -> (r: Expr)
    ensures
        r == *e,
;

/// The derived `Clone` of `BinaryOperator` gives an equal operator.
pub assume_specification[ <BinaryOperator as Clone>::clone ](op: &BinaryOperator) -> (r:
    BinaryOperator)
    ensures
        r == *op,
;

/// The derived `Clone` of `UnaryOperator` gives an equal operator.
pub assume_specification[ <UnaryOperator as Clone>::clone ](op: &UnaryOperator) -> (r:
    UnaryOperator)
    ensures
        r == *op,
;

/// A statement taken apart: a query, or anything else.
pub enum StatementParts {
    Query(Query),
    Other(Statement),
}

/// The body of a query taken apart.
pub enum BodyParts {
    Select(Select),
    Query(Query),
    /// The two sides of a set operation.
    Operation(SetExpr, SetExpr),
    Other,
}

/// An item of a select list taken apart.
pub enum ItemParts {
    Unnamed(Expr),
    Aliased(Expr, Ident),
    Other(SelectItem),
}

/// An expression taken apart, one level deep.
pub enum ExprParts {
    /// A multi-part identifier: the values of its parts, and the expression.
    Compound(Vec<String>, Expr),
    Binary(Expr, BinaryOperator, Expr),
    Unary(UnaryOperator, Expr),
    Nested(Expr),
    /// A function call: the values of the parts of its name, and the call.
    Function(Vec<String>, Expr),
    Other(Expr),
}

/// The mathematical content of [`ExprParts`].
pub enum ExprPartsView {
    Compound(Seq<Seq<char>>, Expr),
    Binary(Expr, BinaryOperator, Expr),
    Unary(UnaryOperator, Expr),
    Nested(Expr),
    Function(Seq<Seq<char>>, Expr),
    Other(Expr),
}

impl View for ExprParts {
    type V = ExprPartsView;

    open spec fn view(&self) -> ExprPartsView {
        match self {
            ExprParts::Compound(parts, e) => ExprPartsView::Compound(views(parts@), *e),
            ExprParts::Binary(l, op, r) => ExprPartsView::Binary(*l, *op, *r),
            ExprParts::Unary(op, e) => ExprPartsView::Unary(*op, *e),
            ExprParts::Nested(e) => ExprPartsView::Nested(*e),
            ExprParts::Function(path, e) => ExprPartsView::Function(views(path@), *e),
            ExprParts::Other(e) => ExprPartsView::Other(*e),
        }
    }
}

/// The view of a multi-part identifier, or of none.
pub open spec fn path_view(p: Option<Vec<String>>) -> Option<Seq<Seq<char>>> {
    match p {
        Some(parts) => Some(views(parts@)),
        None => None,
    }
}

/// The views of what a visit found, expression by expression.
pub open spec fn paths_view(found: Seq<Option<Vec<String>>>) -> Seq<Option<Seq<Seq<char>>>> {
    found.map_values(|p: Option<Vec<String>>| path_view(p))
}

/// Whether a text can be handed to the parser. The parser does not
/// return on every text: in a `GRANT` or `REVOKE` statement after
/// `GRANTED BY`, and in a `FLUSH RELAY LOGS` statement after
/// `FOR CHANNEL`, it stops the program where no name follows. So a text
/// is left out, in any case of its letters, where the word `BY` stands
/// after the word `GRANTED` after the word `GRANT` or `REVOKE` and no
/// plain name follows that `BY`, and where the word `CHANNEL` stands
/// after `FOR` after `RELAY` and no plain name ends the statement there.
pub open spec fn admitted(sql: Seq<char>) -> bool {
    &&& !unnamed_third(upper(sql), "GRANT"@, "GRANTED"@, "BY"@, false)
    &&& !unnamed_third(upper(sql), "REVOKE"@, "GRANTED"@, "BY"@, false)
    &&& !unnamed_third(upper(sql), "RELAY"@, "FOR"@, "CHANNEL"@, true)
}

/// Whether a text can be handed to the parser.
pub fn admits(sql: &str) -> (r: bool)
    ensures
        r == admitted(sql@),
{
    let text = upper_chars(&to_chars(sql));
    let granted = to_chars("GRANTED");
    let by = to_chars("BY");
    if has_unnamed_third(&text, &to_chars("GRANT"), &granted, &by, false) {
        return false;
    }
    if has_unnamed_third(&text, &to_chars("REVOKE"), &granted, &by, false) {
        return false;
    }
    !has_unnamed_third(&text, &to_chars("RELAY"), &to_chars("FOR"), &to_chars("CHANNEL"), true)
}

/// What the parser makes of a text: its statements, or its error.
pub uninterp spec fn parsed_statements(sql: Seq<char>) -> Result<Seq<Statement>, ParserError>;

/// `Parser::parse_sql` with the generic dialect, on a text that can be
/// handed to it. The result is named by [`parsed_statements`].
#[verifier::external_body]
pub(crate) fn parse_statements(sql: &str) -> (r: Result<Vec<Statement>, ParserError>)
    requires
        admitted(sql@),
    ensures
        match r {
            Ok(v) => parsed_statements(sql@) == Ok::<Seq<Statement>, ParserError>(v@),
            Err(e) => parsed_statements(sql@) == Err::<Seq<Statement>, ParserError>(e),
        },
{
    Parser::parse_sql(&GenericDialect {}, sql)
}

/// The text of a parser error.
pub uninterp spec fn error_text(e: ParserError) -> Seq<char>;

/// The `Display` text of a parser error, named by [`error_text`].
#[verifier::external_body]
pub(crate) fn parser_error_text(e: &ParserError) -> (r: String)
    ensures
        r@ == error_text(*e),
{
    e.to_string()
}

/// The view of what a visit found of one statement.
pub open spec fn table_view(t: Option<(bool, Option<String>)>) -> Option<
    (bool, Option<Seq<char>>),
> {
    match t {
        Some((external, Some(location))) => Some((external, Some(location@))),
        Some((external, None)) => Some((external, None)),
        None => None,
    }
}

/// The views of what a visit found, statement by statement.
pub open spec fn tables_view(found: Seq<Option<(bool, Option<String>)>>) -> Seq<
    Option<(bool, Option<Seq<char>>)>,
> {
    found.map_values(|t: Option<(bool, Option<String>)>| table_view(t))
}

/// What a visit of a statement and of the statements in it finds: for
/// each of them that creates a table, whether the table is external, and
/// its location where it has one; nothing for any other statement.
pub uninterp spec fn visited_tables(s: Statement) -> Seq<Option<(bool, Option<Seq<char>>)>>;

/// `visit_statements` over a statement: one entry for every statement
/// that the visit meets, the two fields `external` and `location` of a
/// `Statement::CreateTable`. The result is named by [`visited_tables`].
#[verifier::external_body]
pub(crate) fn created_tables(s: &Statement) -> (r: Vec<Option<(bool, Option<String>)>>)
    ensures
        tables_view(r@) == visited_tables(*s),
{
    let mut found = Vec::new();
    let _ = visit_statements(s, |x| {
        found.push(match x {
            Statement::CreateTable(t) => Some((t.external, t.location.clone())),
            _ => None,
        });
        ControlFlow::<()>::Continue(())
    });
    found
}

/// Whether the printer can print a statement. It does not return on
/// every statement: where a table is created as external and no location
/// is given for it, it stops the program. So a statement is left out
/// where it is such a statement or holds one.
pub open spec fn printable(s: Statement) -> bool {
    forall|i: int|
        0 <= i < visited_tables(s).len() ==> #[trigger] visited_tables(s)[i] != Some(
            (true, None::<Seq<char>>),
        )
}

/// Whether the printer can print a statement.
pub fn prints(s: &Statement) -> (r: bool)
    ensures
        r == printable(*s),
{
    let found = created_tables(s);
    let mut i: usize = 0;
    while i < found.len()
        invariant
            i <= found.len(),
            tables_view(found@) == visited_tables(*s),
            forall|j: int|
                0 <= j < i ==> #[trigger] visited_tables(*s)[j] != Some((true, None::<Seq<char>>)),
        decreases found.len() - i,
    {
        assert(visited_tables(*s)[i as int] == table_view(found@[i as int]));
        match &found[i] {
            Some((external, location)) => {
                if *external && location.is_none() {
                    return false;
                }
            },
            None => {},
        }
        i = i + 1;
    }
    true
}

/// The SQL text of a statement.
pub uninterp spec fn printed_statement(s: Statement) -> Seq<char>;

/// The `Display` text of a statement that the printer can print, named
/// by [`printed_statement`].
#[verifier::external_body]
pub(crate) fn statement_text(s: &Statement) -> (r: String)
    requires
        printable(*s),
    ensures
        r@ == printed_statement(*s),
{
    s.to_string()
}

/// A statement taken apart.
pub uninterp spec fn statement_parts(s: Statement) -> StatementParts;

/// Tells `Statement::Query` from the other statements. The result is
/// named by [`statement_parts`]; the query of a statement that is one
/// makes that statement again, and any other statement comes back as it
/// is.
#[verifier::external_body]
pub(crate) fn split_statement(s: Statement) -> (r: StatementParts)
    ensures
        r == statement_parts(s),
        match r {
            StatementParts::Query(q) => statement_of(q) == s,
            StatementParts::Other(o) => o == s,
        },
{
    match s {
        Statement::Query(q) => StatementParts::Query(*q),
        other => StatementParts::Other(other),
    }
}

/// The statement that is a query.
pub uninterp spec fn statement_of(q: Query) -> Statement;

/// `Statement::Query` around a query, named by [`statement_of`].
#[verifier::external_body]
pub(crate) fn query_statement(q: Query) -> (r: Statement)
    ensures
        r == statement_of(q),
{
    Statement::Query(Box::new(q))
}

/// The body of a query taken apart.
pub uninterp spec fn set_expr_parts(e: SetExpr) -> BodyParts;

/// Tells the variants of `SetExpr` apart, with copies of their parts. The
/// result is named by [`set_expr_parts`]; the parts of a body make that
/// body again.
#[verifier::external_body]
pub(crate) fn split_set_expr(e: &SetExpr) -> (r: BodyParts)
    ensures
        r == set_expr_parts(*e),
        match r {
            BodyParts::Select(s) => select_body_of(s) == *e,
            BodyParts::Query(q) => nested_body_of(q) == *e,
            BodyParts::Operation(left, right) => operation_of(*e, left, right) == *e,
            BodyParts::Other => true,
        },
{
    match e {
        SetExpr::Select(s) => BodyParts::Select((**s).clone()),
        SetExpr::Query(inner) => BodyParts::Query((**inner).clone()),
        SetExpr::SetOperation { left, right, .. } => BodyParts::Operation(
            (**left).clone(),
            (**right).clone(),
        ),
        _ => BodyParts::Other,
    }
}

/// The query with another body.
pub uninterp spec fn with_body(q: Query, body: SetExpr) -> Query;

/// The query with another body, named by [`with_body`].
#[verifier::external_body]
pub(crate) fn query_with_body(q: Query, body: SetExpr) -> (r: Query)
    ensures
        r == with_body(q, body),
{
    Query { body: Box::new(body), ..q }
}

/// The body that is a `SELECT`.
pub uninterp spec fn select_body_of(s: Select) -> SetExpr;

/// `SetExpr::Select` around a select, named by [`select_body_of`].
#[verifier::external_body]
pub(crate) fn select_body(s: Select) -> (r: SetExpr)
    ensures
        r == select_body_of(s),
{
    SetExpr::Select(Box::new(s))
}

/// The body that is a query in parentheses.
pub uninterp spec fn nested_body_of(q: Query) -> SetExpr;

/// `SetExpr::Query` around a query, named by [`nested_body_of`].
#[verifier::external_body]
pub(crate) fn nested_body(q: Query) -> (r: SetExpr)
    ensures
        r == nested_body_of(q),
{
    SetExpr::Query(Box::new(q))
}

/// The set operation with other sides.
pub uninterp spec fn operation_of(e: SetExpr, left: SetExpr, right: SetExpr) -> SetExpr;

/// The set operation with both of its sides replaced; the expression as
/// it is where it is no set operation. The result is named by
/// [`operation_of`].
#[verifier::external_body]
pub(crate) fn operation_with(e: SetExpr, left: SetExpr, right: SetExpr) -> (r: SetExpr)
    ensures
        r == operation_of(e, left, right),
{
    match e {
        SetExpr::SetOperation { op, set_quantifier, .. } => SetExpr::SetOperation {
            op,
            set_quantifier,
            left: Box::new(left),
            right: Box::new(right),
        },
        other => other,
    }
}

/// The body of a query.
pub uninterp spec fn query_body(q: Query) -> SetExpr;

/// A copy of the body of a query, named by [`query_body`]; the query
/// with its own body is that query.
#[verifier::external_body]
pub(crate) fn body_of(q: &Query) -> (r: SetExpr)
    ensures
        r == query_body(*q),
        with_body(*q, r) == *q,
{
    (*q.body).clone()
}

/// The select list of a `SELECT`.
pub uninterp spec fn projection_of(s: Select) -> Seq<SelectItem>;

/// Copies of the select list of a `Select`, named by [`projection_of`].
#[verifier::external_body]
pub(crate) fn select_projection(s: &Select) -> (r: Vec<SelectItem>)
    ensures
        r@ == projection_of(*s),
{
    s.projection.clone()
}

/// What stands after `FROM` in a `SELECT`.
pub uninterp spec fn from_of(s: Select) -> Seq<TableWithJoins>;

/// Copies of what stands after `FROM` in a `Select`, named by [`from_of`].
#[verifier::external_body]
pub(crate) fn select_from(s: &Select) -> (r: Vec<TableWithJoins>)
    ensures
        r@ == from_of(*s),
{
    s.from.clone()
}

/// The condition of a `SELECT`.
pub uninterp spec fn selection_of(s: Select) -> Option<Expr>;

/// A copy of the `WHERE` condition of a `Select`, named by
/// [`selection_of`].
#[verifier::external_body]
pub(crate) fn select_selection(s: &Select) -> (r: Option<Expr>)
    ensures
        r == selection_of(*s),
{
    s.selection.clone()
}

/// The grouping of a `SELECT`.
pub uninterp spec fn group_by_of(s: Select) -> GroupByExpr;

/// A copy of the `GROUP BY` of a `Select`, named by [`group_by_of`].
#[verifier::external_body]
pub(crate) fn select_group_by(s: &Select) -> (r: GroupByExpr)
    ensures
        r == group_by_of(*s),
{
    s.group_by.clone()
}

/// The `SELECT` with another select list, `FROM`, condition and grouping.
pub uninterp spec fn select_of(
    s: Select,
    projection: Seq<SelectItem>,
    from: Seq<TableWithJoins>,
    selection: Option<Expr>,
    group_by: GroupByExpr,
) -> Select;

/// The `Select` with another select list, `FROM`, `WHERE` and `GROUP BY`,
/// named by [`select_of`].
#[verifier::external_body]
pub(crate) fn select_with(
    s: Select,
    projection: Vec<SelectItem>,
    from: Vec<TableWithJoins>,
    selection: Option<Expr>,
    group_by: GroupByExpr,
) -> (r: Select)
    ensures
        r == select_of(s, projection@, from@, selection, group_by),
{
    Select { projection, from, selection, group_by, ..s }
}

/// An item of a select list taken apart.
pub uninterp spec fn item_parts(item: SelectItem) -> ItemParts;

/// Tells the variants of `SelectItem` apart. The result is named by
/// [`item_parts`].
#[verifier::external_body]
pub(crate) fn split_item(item: SelectItem) -> (r: ItemParts)
    ensures
        r == item_parts(item),
{
    match item {
        SelectItem::UnnamedExpr(e) => ItemParts::Unnamed(e),
        SelectItem::ExprWithAlias { expr, alias } => ItemParts::Aliased(expr, alias),
        other => ItemParts::Other(other),
    }
}

/// The item that is an expression without an alias.
pub uninterp spec fn unnamed_of(e: Expr) -> SelectItem;

/// `SelectItem::UnnamedExpr`, named by [`unnamed_of`].
#[verifier::external_body]
pub(crate) fn unnamed_item(e: Expr) -> (r: SelectItem)
    ensures
        r == unnamed_of(e),
{
    SelectItem::UnnamedExpr(e)
}

/// The item that is an expression under an alias.
pub uninterp spec fn aliased_of(expr: Expr, alias: Ident) -> SelectItem;

/// `SelectItem::ExprWithAlias`, named by [`aliased_of`].
#[verifier::external_body]
pub(crate) fn aliased_item(expr: Expr, alias: Ident) -> (r: SelectItem)
    ensures
        r == aliased_of(expr, alias),
{
    SelectItem::ExprWithAlias { expr, alias }
}

/// The identifier without quotes of that value.
pub uninterp spec fn ident_of(value: Seq<char>) -> Ident;

/// `Ident::new`: an identifier without quotes, named by [`ident_of`].
#[verifier::external_body]
pub(crate) fn plain_ident(value: &str) -> (r: Ident)
    ensures
        r == ident_of(value@),
{
    Ident::new(value)
}

/// The table of a `TableWithJoins`, and its joins.
pub uninterp spec fn from_parts(t: TableWithJoins) -> (TableFactor, Seq<Join>);

/// The two fields of a `TableWithJoins`, named by [`from_parts`].
#[verifier::external_body]
pub(crate) fn split_from(t: TableWithJoins) -> (r: (TableFactor, Vec<Join>))
    ensures
        r.0 == from_parts(t).0,
        r.1@ == from_parts(t).1,
{
    (t.relation, t.joins)
}

/// The table with the joins after it.
pub uninterp spec fn from_item_of(relation: TableFactor, joins: Seq<Join>) -> TableWithJoins;

/// A `TableWithJoins` of its two fields, named by [`from_item_of`].
#[verifier::external_body]
pub(crate) fn from_item(relation: TableFactor, joins: Vec<Join>) -> (r: TableWithJoins)
    ensures
        r == from_item_of(relation, joins@),
{
    TableWithJoins { relation, joins }
}

/// The parts of the name of a table that is written by name; nothing for
/// anything else that can stand after `FROM`.
pub uninterp spec fn table_path(t: TableFactor) -> Option<Seq<Seq<char>>>;

/// The values of the parts of the name of a `TableFactor::Table`;
/// nothing for the other variants. The result is named by [`table_path`].
#[verifier::external_body]
pub(crate) fn table_name_parts(t: &TableFactor) -> (r: Option<Vec<String>>)
    ensures
        match r {
            Some(p) => table_path(*t) == Some(views(p@)),
            None => table_path(*t) is None,
        },
{
    match t {
        TableFactor::Table { name, .. } => Some(name.0.iter().map(|i| i.value.clone()).collect()),
        _ => None,
    }
}

/// The alias of a table that is written by name, where it has one.
pub uninterp spec fn table_alias(t: TableFactor) -> Option<TableAlias>;

/// A copy of the alias of a `TableFactor::Table`, where it has one. The
/// result is named by [`table_alias`].
#[verifier::external_body]
pub(crate) fn table_alias_of(t: &TableFactor) -> (r: Option<TableAlias>)
    ensures
        r == table_alias(*t),
{
    match t {
        TableFactor::Table { alias, .. } => alias.clone(),
        _ => None,
    }
}

/// The name of an alias.
pub uninterp spec fn alias_name(a: TableAlias) -> Seq<char>;

/// The value of the name of a `TableAlias`, named by [`alias_name`].
#[verifier::external_body]
pub(crate) fn alias_text(a: &TableAlias) -> (r: String)
    ensures
        r@ == alias_name(*a),
{
    a.name.value.clone()
}

/// The alias of that name, without columns.
pub uninterp spec fn alias_of_name(name: Seq<char>) -> TableAlias;

/// A `TableAlias` of that name, without columns, named by
/// [`alias_of_name`].
#[verifier::external_body]
pub(crate) fn plain_alias(name: &str) -> (r: TableAlias)
    ensures
        r == alias_of_name(name@),
{
    TableAlias { name: Ident::new(name), columns: vec![] }
}

/// The table of that name under that alias.
pub uninterp spec fn table_of(parts: Seq<Seq<char>>, alias: TableAlias) -> TableFactor;

/// A `TableFactor::Table` of that name under that alias, nothing else
/// set. The result is named by [`table_of`].
#[verifier::external_body]
pub(crate) fn named_table(parts: Vec<String>, alias: TableAlias) -> (r: TableFactor)
    ensures
        r == table_of(views(parts@), alias),
{
    TableFactor::Table {
        name: ObjectName(parts.into_iter().map(Ident::new).collect()),
        alias: Some(alias),
        args: None,
        with_hints: vec![],
        version: None,
        with_ordinality: false,
        partitions: vec![],
    }
}

/// The subquery under that alias.
pub uninterp spec fn subquery_of(q: Query, alias: TableAlias) -> TableFactor;

/// A `TableFactor::Derived`: a subquery under that alias. The result is
/// named by [`subquery_of`].
#[verifier::external_body]
pub(crate) fn subquery_table(q: Query, alias: TableAlias) -> (r: TableFactor)
    ensures
        r == subquery_of(q, alias),
{
    TableFactor::Derived { lateral: false, subquery: Box::new(q), alias: Some(alias) }
}

/// The `LEFT JOIN` of a table on a condition.
pub uninterp spec fn left_join_of(relation: TableFactor, on: Expr) -> Join;

/// A `Join` with `JoinOperator::LeftOuter` on the given condition, named
/// by [`left_join_of`].
#[verifier::external_body]
pub(crate) fn left_join(relation: TableFactor, on: Expr) -> (r: Join)
    ensures
        r == left_join_of(relation, on),
{
    Join { relation, global: false, join_operator: JoinOperator::LeftOuter(JoinConstraint::On(on)) }
}

/// An expression taken apart, one level deep.
pub uninterp spec fn expr_parts(e: Expr) -> ExprPartsView;

/// Tells the variants of `Expr` apart that the rewriter looks into. The
/// result is named by [`expr_parts`].
#[verifier::external_body]
pub(crate) fn split_expr(e: Expr) -> (r: ExprParts)
    ensures
        r@ == expr_parts(e),
{
    match e {
        Expr::CompoundIdentifier(p) => ExprParts::Compound(
            p.iter().map(|i| i.value.clone()).collect(),
            Expr::CompoundIdentifier(p),
        ),
        Expr::BinaryOp { left, op, right } => ExprParts::Binary(*left, op, *right),
        Expr::UnaryOp { op, expr } => ExprParts::Unary(op, *expr),
        Expr::Nested(inner) => ExprParts::Nested(*inner),
        Expr::Function(f) => ExprParts::Function(
            f.name.0.iter().map(|i| i.value.clone()).collect(),
            Expr::Function(f),
        ),
        other => ExprParts::Other(other),
    }
}

/// What a visit of an expression meets, in its order: for each
/// expression in it, the values of the parts of that expression where it
/// is a multi-part identifier, and nothing where it is anything else.
pub uninterp spec fn visited_paths(e: Expr) -> Seq<Option<Seq<Seq<char>>>>;

/// `visit_expressions` over an expression: one entry for every expression
/// that the visit meets, the values of its parts for a multi-part
/// identifier. The result is named by [`visited_paths`].
#[verifier::external_body]
pub(crate) fn visited_identifiers(e: &Expr) -> (r: Vec<Option<Vec<String>>>)
    ensures
        paths_view(r@) == visited_paths(*e),
{
    let mut found = Vec::new();
    let _ = visit_expressions(e, |x| {
        found.push(match x {
            Expr::CompoundIdentifier(p) => Some(p.iter().map(|i| i.value.clone()).collect()),
            _ => None,
        });
        ControlFlow::<()>::Continue(())
    });
    found
}

/// The binary expression of two expressions and an operator.
pub uninterp spec fn binary_of(left: Expr, op: BinaryOperator, right: Expr) -> Expr;

/// `Expr::BinaryOp`, named by [`binary_of`].
#[verifier::external_body]
pub(crate) fn binary_expr(left: Expr, op: BinaryOperator, right: Expr) -> (r: Expr)
    ensures
        r == binary_of(left, op, right),
{
    Expr::BinaryOp { left: Box::new(left), op, right: Box::new(right) }
}

/// The equality of two expressions.
pub uninterp spec fn equals_of(left: Expr, right: Expr) -> Expr;

/// `Expr::BinaryOp` with `BinaryOperator::Eq`, named by [`equals_of`].
#[verifier::external_body]
pub(crate) fn equals_expr(left: Expr, right: Expr) -> (r: Expr)
    ensures
        r == equals_of(left, right),
{
    Expr::BinaryOp { left: Box::new(left), op: BinaryOperator::Eq, right: Box::new(right) }
}

/// The unary expression of an operator and an expression.
pub uninterp spec fn unary_of(op: UnaryOperator, operand: Expr) -> Expr;

/// `Expr::UnaryOp`, named by [`unary_of`].
#[verifier::external_body]
pub(crate) fn unary_expr(op: UnaryOperator, operand: Expr) -> (r: Expr)
    ensures
        r == unary_of(op, operand),
{
    Expr::UnaryOp { op, expr: Box::new(operand) }
}

/// The expression in parentheses.
pub uninterp spec fn nested_of(inner: Expr) -> Expr;

/// `Expr::Nested`, named by [`nested_of`].
#[verifier::external_body]
pub(crate) fn nested_expr(inner: Expr) -> (r: Expr)
    ensures
        r == nested_of(inner),
{
    Expr::Nested(Box::new(inner))
}

/// The column `qualifier.name`, both without quotes.
pub uninterp spec fn column_of(qualifier: Seq<char>, name: Seq<char>) -> Expr;

/// `Expr::CompoundIdentifier` of two identifiers without quotes, named by
/// [`column_of`].
#[verifier::external_body]
pub(crate) fn column_expr(qualifier: &str, name: &str) -> (r: Expr)
    ensures
        r == column_of(qualifier@, name@),
{
    Expr::CompoundIdentifier(vec![Ident::new(qualifier), Ident::new(name)])
}

/// The string in single quotes.
pub uninterp spec fn string_of(text: Seq<char>) -> Expr;

/// `Expr::Value` of a string in single quotes, named by [`string_of`].
#[verifier::external_body]
pub(crate) fn string_expr(text: &str) -> (r: Expr)
    ensures
        r == string_of(text@),
{
    Expr::Value(Value::SingleQuotedString(text.to_string()))
}

/// The call of a function on all rows, `name(*)`.
pub uninterp spec fn rows_call_of(name: Seq<char>, distinct: bool) -> Expr;

/// `Expr::Function`: a call of the function of that name with `*` for its
/// only argument, with `DISTINCT` where asked, nothing else set. The
/// result is named by [`rows_call_of`].
#[verifier::external_body]
pub(crate) fn call_on_rows(name: &str, distinct: bool) -> (r: Expr)
    ensures
        r == rows_call_of(name@, distinct),
{
    let duplicate_treatment = distinct.then_some(DuplicateTreatment::Distinct);
    let args = vec![FunctionArg::Unnamed(FunctionArgExpr::Wildcard)];
    let list = FunctionArgumentList { duplicate_treatment, args, clauses: vec![] };
    Expr::Function(Function {
        name: ObjectName(vec![Ident::new(name)]),
        parameters: FunctionArguments::None,
        args: FunctionArguments::List(list),
        filter: None,
        null_treatment: None,
        over: None,
        within_group: vec![],
    })
}

/// The call of a function on the given expressions.
pub uninterp spec fn call_of(name: Seq<char>, distinct: bool, args: Seq<Expr>) -> Expr;

/// `Expr::Function`: a call of the function of that name with the given
/// expressions for its arguments, with `DISTINCT` where asked, nothing
/// else set. The result is named by [`call_of`].
#[verifier::external_body]
pub(crate) fn call_on(name: &str, distinct: bool, args: Vec<Expr>) -> (r: Expr)
    ensures
        r == call_of(name@, distinct, args@),
{
    let duplicate_treatment = distinct.then_some(DuplicateTreatment::Distinct);
    let args = args.into_iter().map(|e| FunctionArg::Unnamed(FunctionArgExpr::Expr(e))).collect();
    let list = FunctionArgumentList { duplicate_treatment, args, clauses: vec![] };
    Expr::Function(Function {
        name: ObjectName(vec![Ident::new(name)]),
        parameters: FunctionArguments::None,
        args: FunctionArguments::List(list),
        filter: None,
        null_treatment: None,
        over: None,
        within_group: vec![],
    })
}

/// The grouping by the given places.
pub uninterp spec fn positions_of(positions: Seq<usize>) -> GroupByExpr;

/// `GroupByExpr::Expressions` of the given numbers, each an unquoted
/// number literal. The result is named by [`positions_of`].
#[verifier::external_body]
pub(crate) fn positional_group_by(positions: Vec<usize>) -> (r: GroupByExpr)
    ensures
        r == positions_of(positions@),
{
    let number = |p: usize| Expr::Value(Value::Number(p.to_string(), false));
    GroupByExpr::Expressions(positions.into_iter().map(number).collect(), vec![])
}

} // verus!
