//! Dependencies between metrics: which metrics the definition of a metric
//! refers to.

pub mod cycles;

use vstd::prelude::*;
use vstd::string::*;
use polyglot_sql::DialectType;
use polyglot_sql::Expression;
use polyglot_sql::ExpressionWalk;
use crate::graph::GraphView;
use crate::graph::SemanticGraph;
use crate::model::Metric;
use crate::model::MetricType;
use crate::model::MetricView;
use crate::model::ModelView;
use crate::names::NameSet;
use crate::segment::opt_view;
use crate::text::concat2;
use crate::text::concat3;
use crate::text::contains_char;
use crate::text::from_chars;
use crate::text::is_digit;
use crate::text::is_letter;
use crate::text::is_space;
use crate::text::is_space_char;
use crate::text::matches_at;
use crate::text::starts_at;
use crate::text::str_eq;
use crate::text::to_chars;
use crate::text::upper;
use crate::text::upper_chars;

verus! {

/// Whether a character is one of the operator characters `+ - * / ( ) , > < =`.
pub open spec fn is_operator(c: char) -> bool {
    c == '+' || c == '-' || c == '*' || c == '/' || c == '(' || c == ')' || c == ',' || c == '>'
        || c == '<' || c == '='
}

/// Whether a text holds an operator character.
pub open spec fn has_operator(s: Seq<char>) -> bool {
    exists|i: int| 0 <= i < s.len() && is_operator(#[trigger] s[i])
}

/// Whether a text holds white space.
pub open spec fn has_space(s: Seq<char>) -> bool {
    exists|i: int| 0 <= i < s.len() && is_space(#[trigger] s[i])
}

/// Whether a formula is nothing but one qualified reference: it holds a
/// `.`, no white space and no operator character.
pub open spec fn simple_reference(s: Seq<char>) -> bool {
    s.contains('.') && !has_space(s) && !has_operator(s)
}

/// Whether a text holds an operator character.
pub fn has_operators(s: &str) -> (r: bool)
    ensures
        r == has_operator(s@),
{
    let chars = to_chars(s);
    let mut i: usize = 0;
    while i < chars.len()
        invariant
            i <= chars.len(),
            chars@ == s@,
            forall|j: int| 0 <= j < i ==> !is_operator(#[trigger] chars@[j]),
        decreases chars.len() - i,
    {
        let c = chars[i];
        if c == '+' || c == '-' || c == '*' || c == '/' || c == '(' || c == ')' || c == ',' || c
            == '>' || c == '<' || c == '=' {
            return true;
        }
        i = i + 1;
    }
    false
}

/// Whether a formula is nothing but one qualified reference.
pub fn is_simple_reference(sql: &str) -> (r: bool)
    ensures
        r == simple_reference(sql@),
{
    let chars = to_chars(sql);
    if !contains_char(&chars, '.') {
        return false;
    }
    let mut i: usize = 0;
    while i < chars.len()
        invariant
            i <= chars.len(),
            chars@ == sql@,
            forall|j: int| 0 <= j < i ==> !is_space(#[trigger] chars@[j]),
        decreases chars.len() - i,
    {
        if is_space_char(chars[i]) {
            return false;
        }
        i = i + 1;
    }
    !has_operators(sql)
}

/// Whether a word is one of the SQL keywords that a formula may hold,
/// whatever the case of its letters.
pub open spec fn keyword(s: Seq<char>) -> bool {
    let u = upper(s);
    u == "SELECT"@ || u == "FROM"@ || u == "WHERE"@ || u == "AND"@ || u == "OR"@ || u == "NOT"@
        || u == "NULL"@ || u == "NULLIF"@ || u == "CASE"@ || u == "WHEN"@ || u == "THEN"@ || u
        == "ELSE"@ || u == "END"@ || u == "AS"@ || u == "SUM"@ || u == "COUNT"@ || u == "AVG"@
        || u == "MIN"@ || u == "MAX"@ || u == "DISTINCT"@
}

/// Whether a word is one of the SQL keywords that a formula may hold.
pub fn is_keyword(s: &str) -> (r: bool)
    ensures
        r == keyword(s@),
{
    let chars = to_chars(s);
    let up = from_chars(&upper_chars(&chars));
    let u = up.as_str();
    str_eq(u, "SELECT") || str_eq(u, "FROM") || str_eq(u, "WHERE") || str_eq(u, "AND") || str_eq(
        u,
        "OR",
    ) || str_eq(u, "NOT") || str_eq(u, "NULL") || str_eq(u, "NULLIF") || str_eq(u, "CASE")
        || str_eq(u, "WHEN") || str_eq(u, "THEN") || str_eq(u, "ELSE") || str_eq(u, "END")
        || str_eq(u, "AS") || str_eq(u, "SUM") || str_eq(u, "COUNT") || str_eq(u, "AVG") || str_eq(
        u,
        "MIN",
    ) || str_eq(u, "MAX") || str_eq(u, "DISTINCT")
}

/// The place after the digits that start at `i`.
pub open spec fn digits_end(s: Seq<char>, i: int) -> int
    decreases s.len() - i,
{
    if 0 <= i < s.len() && is_digit(s[i]) {
        digits_end(s, i + 1)
    } else {
        i
    }
}

/// Whether a character is a sign.
pub open spec fn is_sign(c: char) -> bool {
    c == '+' || c == '-'
}

/// Whether the text from `i` on is a decimal number without a sign: digits
/// with at most one `.` among them, at least one digit, and then perhaps
/// an exponent, `e` or `E` with an optional sign and at least one digit.
pub open spec fn decimal_from(s: Seq<char>, i: int) -> bool {
    let whole_end = digits_end(s, i);
    let has_point = whole_end < s.len() && s[whole_end] == '.';
    let mantissa_end = if has_point {
        digits_end(s, whole_end + 1)
    } else {
        whole_end
    };
    let digits = if has_point {
        mantissa_end - i - 1
    } else {
        mantissa_end - i
    };
    if digits <= 0 {
        false
    } else if mantissa_end >= s.len() {
        true
    } else if s[mantissa_end] == 'e' || s[mantissa_end] == 'E' {
        let exponent = if mantissa_end + 1 < s.len() && is_sign(s[mantissa_end + 1]) {
            mantissa_end + 2
        } else {
            mantissa_end + 1
        };
        digits_end(s, exponent) > exponent && digits_end(s, exponent) >= s.len()
    } else {
        false
    }
}

/// Whether a text is a numeric literal: an optional sign, then `inf`,
/// `infinity` or `nan` in any case, or a decimal number.
pub open spec fn number(s: Seq<char>) -> bool {
    let start: int = if s.len() > 0 && is_sign(s[0]) {
        1
    } else {
        0
    };
    let body = upper(s.subrange(start, s.len() as int));
    body == "INF"@ || body == "INFINITY"@ || body == "NAN"@ || decimal_from(s, start)
}

/// The place after the digits that start at `i`.
fn skip_digits(s: &Vec<char>, i: usize) -> (r: usize)
    requires
        i <= s.len(),
    ensures
        r == digits_end(s@, i as int),
        i <= r <= s.len(),
{
    let mut k: usize = i;
    while k < s.len() && '0' <= s[k] && s[k] <= '9'
        invariant
            i <= k <= s.len(),
            digits_end(s@, i as int) == digits_end(s@, k as int),
        decreases s.len() - k,
    {
        k = k + 1;
    }
    k
}

/// Whether a text is a numeric literal.
pub fn is_number(s: &str) -> (r: bool)
    ensures
        r == number(s@),
{
    let chars = to_chars(s);
    let n = chars.len();
    let start: usize = if n > 0 && (chars[0] == '+' || chars[0] == '-') {
        1
    } else {
        0
    };
    let body = crate::text::slice_chars(&chars, start, n);
    let up = from_chars(&upper_chars(&body));
    if str_eq(up.as_str(), "INF") || str_eq(up.as_str(), "INFINITY") || str_eq(up.as_str(), "NAN") {
        return true;
    }
    let whole_end = skip_digits(&chars, start);
    let has_point = whole_end < n && chars[whole_end] == '.';
    let mantissa_end = if has_point {
        skip_digits(&chars, whole_end + 1)
    } else {
        whole_end
    };
    let digits = if has_point {
        mantissa_end - start - 1
    } else {
        mantissa_end - start
    };
    if digits == 0 {
        false
    } else if mantissa_end >= n {
        true
    } else if chars[mantissa_end] == 'e' || chars[mantissa_end] == 'E' {
        let exponent = if mantissa_end + 1 < n && (chars[mantissa_end + 1] == '+' || chars[mantissa_end
            + 1] == '-') {
            mantissa_end + 2
        } else {
            mantissa_end + 1
        };
        let end = skip_digits(&chars, exponent);
        end > exponent && end >= n
    } else {
        false
    }
}

/// Whether a character can stand in a name: an ASCII letter or digit, `_` or `.`.
pub open spec fn is_word_char(c: char) -> bool {
    is_letter(c) || is_digit(c) || c == '_' || c == '.'
}

/// Whether a word that the scan has read is kept: it is not empty, no
/// keyword and no number.
pub open spec fn kept(word: Seq<char>) -> bool {
    word.len() > 0 && !keyword(word) && !number(word)
}

/// `acc` with the word `word` put in if it is kept.
pub open spec fn keep(acc: Set<Seq<char>>, word: Seq<char>) -> Set<Seq<char>> {
    if kept(word) {
        acc.insert(word)
    } else {
        acc
    }
}

/// The scan of a formula from `i` on. `word` is the run of name characters
/// read so far, `quoted` whether the scan stands inside single quotes, and
/// `prev` the character before `i`. A quote that does not follow a
/// backslash opens or closes a quoted part; outside quotes every other
/// character that is no name character ends the word.
pub open spec fn scan_from(
    s: Seq<char>,
    i: int,
    word: Seq<char>,
    quoted: bool,
    prev: char,
    acc: Set<Seq<char>>,
) -> Set<Seq<char>>
    decreases s.len() - i,
{
    if i < 0 || i >= s.len() {
        keep(acc, word)
    } else {
        let c = s[i];
        let q = if c == '\'' && prev != '\\' {
            !quoted
        } else {
            quoted
        };
        if q {
            scan_from(s, i + 1, word, q, c, acc)
        } else if is_word_char(c) {
            scan_from(s, i + 1, word.push(c), q, c, acc)
        } else {
            scan_from(s, i + 1, Seq::empty(), q, c, keep(acc, word))
        }
    }
}

/// The names that a scan of the formula finds: the maximal runs of name
/// characters outside single quotes that are neither keywords nor numbers.
pub open spec fn simple_references(s: Seq<char>) -> Set<Seq<char>> {
    scan_from(s, 0, Seq::empty(), false, ' ', Set::empty())
}

/// Puts the word into the set if it is kept.
fn keep_word(acc: &mut NameSet, word: &Vec<char>)
    ensures
        final(acc)@ == keep(old(acc)@, word@),
{
    if word.len() > 0 {
        let text = from_chars(word);
        if !is_keyword(text.as_str()) && !is_number(text.as_str()) {
            acc.insert(text);
        }
    }
}

/// The names that a scan of the formula finds, without parsing it.
pub fn extract_simple_references(sql: &str) -> (r: NameSet)
    ensures
        r@ == simple_references(sql@),
{
    let chars = to_chars(sql);
    let mut refs = NameSet::new();
    let mut word: Vec<char> = Vec::new();
    let mut quoted = false;
    let mut prev = ' ';
    let mut i: usize = 0;
    while i < chars.len()
        invariant
            i <= chars.len(),
            chars@ == sql@,
            simple_references(sql@) == scan_from(sql@, i as int, word@, quoted, prev, refs@),
        decreases chars.len() - i,
    {
        let c = chars[i];
        if c == '\'' && prev != '\\' {
            quoted = !quoted;
        }
        if !quoted {
            if ('a' <= c && c <= 'z') || ('A' <= c && c <= 'Z') || ('0' <= c && c <= '9') || c == '_'
                || c == '.' {
                word.push(c);
            } else {
                keep_word(&mut refs, &word);
                word = Vec::new();
            }
        }
        prev = c;
        i = i + 1;
    }
    keep_word(&mut refs, &word);
    refs
}

/// `polyglot_sql::Expression`, taken as a whole.
#[verifier::external_type_specification]
#[verifier::external_body]
pub struct ExExpression(Expression);

/// What the parser makes of a text: its statements, or nothing where the
/// text does not parse.
pub uninterp spec fn parsed_expressions(sql: Seq<char>) -> Option<Seq<Expression>>;

/// Whether a text begins with `SELECT` and a blank.
pub open spec fn begins_select(sql: Seq<char>) -> bool {
    matches_at(sql, "SELECT "@, 0)
}

/// `polyglot_sql::parse` with the generic dialect, on a text that begins
/// with `SELECT`. The result is named by [`parsed_expressions`].
///
/// The parser gives an error for what it cannot read; that it returns at
/// all rests on its source. There each `unwrap`, `expect` and
/// `unreachable!` of the parser and of the tokenizer, and each index into
/// the list of tokens, stands behind a test of the same value, or in a
/// branch of another dialect; the functions that look one token back are
/// reached only once the leading `SELECT` is read, which is why the text
/// must begin with it. The depth of nesting and the size of the text are
/// bounded by the parser's own limits.
#[verifier::external_body]
fn parse_expressions(sql: &str) -> (r: Option<Vec<Expression>>)
    requires
        begins_select(sql@),
    ensures
        match r {
            Some(v) => parsed_expressions(sql@) == Some(v@),
            None => parsed_expressions(sql@) is None,
        },
{
    polyglot_sql::parse(sql, DialectType::Generic).ok()
}

/// The select list of a statement that is a `SELECT`; nothing for any
/// other expression.
pub uninterp spec fn select_items_of(e: Expression) -> Option<Seq<Expression>>;

/// Copies of the select list of an `Expression::Select`; nothing for the
/// other variants. The result is named by [`select_items_of`].
#[verifier::external_body]
fn select_items(e: &Expression) -> (r: Option<Vec<Expression>>)
    ensures
        match r {
            Some(v) => select_items_of(*e) == Some(v@),
            None => select_items_of(*e) is None,
        },
{
    match e {
        Expression::Select(select) => Some(select.expressions.clone()),
        _ => None,
    }
}

/// An expression and everything in it, in the order of a depth-first walk.
pub uninterp spec fn walked(e: Expression) -> Seq<Expression>;

/// `ExpressionWalk::dfs`, each expression that it yields copied. The
/// result is named by [`walked`].
#[verifier::external_body]
fn walk(e: &Expression) -> (r: Vec<Expression>)
    ensures
        r@ == walked(*e),
{
    e.dfs().cloned().collect()
}

/// What an expression of a formula is, as far as the names in it go.
#[derive(Debug)]
pub enum NodeParts {
    /// An identifier, by its name.
    Identifier(String),
    /// A column, by the name of its table where it has one, and its name.
    Column(Option<String>, String),
    /// Anything else.
    Other,
}

/// The mathematical content of [`NodeParts`].
pub enum NodePartsView {
    Identifier(Seq<char>),
    Column(Option<Seq<char>>, Seq<char>),
    Other,
}

impl View for NodeParts {
    type V = NodePartsView;

    open spec fn view(&self) -> NodePartsView {
        match self {
            NodeParts::Identifier(n) => NodePartsView::Identifier(n@),
            NodeParts::Column(t, n) => NodePartsView::Column(opt_view(*t), n@),
            NodeParts::Other => NodePartsView::Other,
        }
    }
}

/// What an expression is, as far as the names in it go.
pub uninterp spec fn node_parts_of(e: Expression) -> NodePartsView;

/// Tells `Expression::Identifier` and `Expression::Column` from the other
/// variants, with the names they hold. The result is named by
/// [`node_parts_of`].
#[verifier::external_body]
fn node_parts(e: &Expression) -> (r: NodeParts)
    ensures
        r@ == node_parts_of(*e),
{
    match e {
        Expression::Identifier(id) => NodeParts::Identifier(id.name.clone()),
        Expression::Column(c) => NodeParts::Column(
            c.table.as_ref().map(|t| t.name.clone()),
            c.name.name.clone(),
        ),
        _ => NodeParts::Other,
    }
}

/// The views of a list of references.
pub open spec fn references_view(v: Seq<(Option<String>, String)>) -> Seq<
    (Option<Seq<char>>, Seq<char>),
> {
    v.map_values(|r: (Option<String>, String)| (opt_view(r.0), r.1@))
}

/// The view of what the parser found.
pub open spec fn parse_view(p: Option<Vec<(Option<String>, String)>>) -> Option<
    Seq<(Option<Seq<char>>, Seq<char>)>,
> {
    match p {
        Some(v) => Some(references_view(v@)),
        None => None,
    }
}

/// The views of a list of node parts.
pub open spec fn nodes_view(v: Seq<NodeParts>) -> Seq<NodePartsView> {
    v.map_values(|n: NodeParts| n@)
}

/// `acc` with the reference that a node is, if it is one: an identifier
/// is a bare name, a column a name with its table where it has one, and
/// nothing else counts.
pub open spec fn with_node(
    acc: Seq<(Option<Seq<char>>, Seq<char>)>,
    node: NodePartsView,
) -> Seq<(Option<Seq<char>>, Seq<char>)> {
    match node {
        NodePartsView::Identifier(n) => acc.push((None, n)),
        NodePartsView::Column(t, n) => acc.push((t, n)),
        NodePartsView::Other => acc,
    }
}

/// `acc` with the references among the nodes from `i` on.
pub open spec fn with_nodes_from(
    nodes: Seq<NodePartsView>,
    i: int,
    acc: Seq<(Option<Seq<char>>, Seq<char>)>,
) -> Seq<(Option<Seq<char>>, Seq<char>)>
    decreases nodes.len() - i,
{
    if i < 0 || i >= nodes.len() {
        acc
    } else {
        with_nodes_from(nodes, i + 1, with_node(acc, nodes[i]))
    }
}

/// The nodes of an expression, in the order of a depth-first walk, each
/// as far as the names in it go.
pub open spec fn walked_nodes(e: Expression) -> Seq<NodePartsView> {
    walked(e).map_values(|n: Expression| node_parts_of(n))
}

/// `acc` with the references in the items of a select list from `i` on.
pub open spec fn with_items_from(
    items: Seq<Expression>,
    i: int,
    acc: Seq<(Option<Seq<char>>, Seq<char>)>,
) -> Seq<(Option<Seq<char>>, Seq<char>)>
    decreases items.len() - i,
{
    if i < 0 || i >= items.len() {
        acc
    } else {
        with_items_from(items, i + 1, with_nodes_from(walked_nodes(items[i]), 0, acc))
    }
}

/// `acc` with the references in the select lists of the statements from
/// `i` on; a statement that is no `SELECT` has none.
pub open spec fn with_statements_from(
    statements: Seq<Expression>,
    i: int,
    acc: Seq<(Option<Seq<char>>, Seq<char>)>,
) -> Seq<(Option<Seq<char>>, Seq<char>)>
    decreases statements.len() - i,
{
    if i < 0 || i >= statements.len() {
        acc
    } else {
        match select_items_of(statements[i]) {
            Some(items) => with_statements_from(
                statements,
                i + 1,
                with_items_from(items, 0, acc),
            ),
            None => with_statements_from(statements, i + 1, acc),
        }
    }
}

/// The references that the parser finds in a text: the identifiers and
/// the columns in the select lists of its `SELECT` statements, each with
/// its table where it has one, in the order of a depth-first walk;
/// nothing where the text does not begin with `SELECT` or does not parse.
pub open spec fn parsed_references(sql: Seq<char>) -> Option<Seq<(Option<Seq<char>>, Seq<char>)>> {
    if !begins_select(sql) {
        None
    } else {
        match parsed_expressions(sql) {
            Some(statements) => Some(with_statements_from(statements, 0, Seq::empty())),
            None => None,
        }
    }
}

/// Adds the references among the given nodes: the identifiers and the
/// columns, in their order.
pub fn add_node_references(nodes: &Vec<NodeParts>, out: &mut Vec<(Option<String>, String)>)
    ensures
        references_view(final(out)@) == with_nodes_from(
            nodes_view(nodes@),
            0,
            references_view(old(out)@),
        ),
{
    let ghost all = nodes_view(nodes@);
    let ghost start = references_view(out@);
    let mut i: usize = 0;
    while i < nodes.len()
        invariant
            i <= nodes.len(),
            all == nodes_view(nodes@),
            with_nodes_from(all, 0, start) == with_nodes_from(all, i as int, references_view(out@)),
        decreases nodes.len() - i,
    {
        assert(all[i as int] == nodes@[i as int]@);
        let ghost prev = references_view(out@);
        match &nodes[i] {
            NodeParts::Identifier(n) => {
                let item: (Option<String>, String) = (None, n.clone());
                out.push(item);
                assert(references_view(out@) =~= prev.push((None, n@)));
            },
            NodeParts::Column(t, n) => {
                let item = (crate::segment::clone_opt(t), n.clone());
                out.push(item);
                assert(references_view(out@) =~= prev.push((opt_view(*t), n@)));
            },
            NodeParts::Other => {},
        }
        i = i + 1;
    }
}

/// The references that the parser finds in a text.
pub fn parse_references(sql: &str) -> (r: Option<Vec<(Option<String>, String)>>)
    ensures
        parse_view(r) == parsed_references(sql@),
{
    if !starts_at(&to_chars(sql), &to_chars("SELECT "), 0) {
        return None;
    }
    let statements = match parse_expressions(sql) {
        Some(v) => v,
        None => {
            return None;
        },
    };
    let ghost ss = statements@;
    let mut refs: Vec<(Option<String>, String)> = Vec::new();
    assert(references_view(refs@) =~= Seq::empty());
    let mut i: usize = 0;
    while i < statements.len()
        invariant
            i <= statements.len(),
            ss == statements@,
            with_statements_from(ss, 0, Seq::empty()) == with_statements_from(
                ss,
                i as int,
                references_view(refs@),
            ),
        decreases statements.len() - i,
    {
        match select_items(&statements[i]) {
            None => {},
            Some(items) => {
                let ghost start = references_view(refs@);
                let ghost its = items@;
                let mut k: usize = 0;
                while k < items.len()
                    invariant
                        k <= items.len(),
                        its == items@,
                        with_items_from(its, 0, start) == with_items_from(
                            its,
                            k as int,
                            references_view(refs@),
                        ),
                    decreases items.len() - k,
                {
                    let found = walk(&items[k]);
                    let mut nodes: Vec<NodeParts> = Vec::new();
                    let mut n: usize = 0;
                    assert(nodes_view(nodes@) =~= walked_nodes(its[k as int]).subrange(0, 0));
                    while n < found.len()
                        invariant
                            n <= found.len(),
                            k < items.len(),
                            its == items@,
                            found@ == walked(its[k as int]),
                            nodes_view(nodes@) == walked_nodes(its[k as int]).subrange(0, n as int),
                        decreases found.len() - n,
                    {
                        let ghost prev = nodes_view(nodes@);
                        let parts = node_parts(&found[n]);
                        nodes.push(parts);
                        assert(nodes_view(nodes@) =~= prev.push(parts@));
                        n = n + 1;
                        assert(nodes_view(nodes@) =~= walked_nodes(its[k as int]).subrange(
                            0,
                            n as int,
                        ));
                    }
                    assert(walked_nodes(its[k as int]).subrange(0, n as int) =~= walked_nodes(
                        its[k as int],
                    ));
                    add_node_references(&nodes, &mut refs);
                    k = k + 1;
                }
            },
        }
        i = i + 1;
    }
    Some(refs)
}

/// The name that a reference stands for: `table.column`, or the bare name.
pub open spec fn reference_name(r: (Option<Seq<char>>, Seq<char>)) -> Seq<char> {
    match r.0 {
        Some(t) => t + "."@ + r.1,
        None => r.1,
    }
}

/// The names of the references from `i` on, added to `acc`.
pub open spec fn named_from(
    refs: Seq<(Option<Seq<char>>, Seq<char>)>,
    i: int,
    acc: Set<Seq<char>>,
) -> Set<Seq<char>>
    decreases refs.len() - i,
{
    if i < 0 || i >= refs.len() {
        acc
    } else {
        named_from(refs, i + 1, acc.insert(reference_name(refs[i])))
    }
}

/// The names that a formula refers to, given what the parser found in it:
/// the names of the references found, or, where the formula did not
/// parse, what a scan of it finds.
pub open spec fn references_of(sql: Seq<char>, parsed: Option<Seq<(Option<Seq<char>>, Seq<char>)>>) -> Set<
    Seq<char>,
> {
    match parsed {
        Some(refs) => named_from(refs, 0, Set::empty()),
        None => simple_references(sql),
    }
}

/// The names that a formula refers to: it is parsed as the select list of
/// a `SELECT`.
pub open spec fn column_references(sql: Seq<char>) -> Set<Seq<char>> {
    references_of(sql, parsed_references("SELECT "@ + sql))
}

/// The names that a formula refers to, given what the parser found in it.
pub fn references_from_parse(sql: &str, parsed: Option<Vec<(Option<String>, String)>>) -> (r: NameSet)
    ensures
        r@ == references_of(sql@, parse_view(parsed)),
{
    match parsed {
        None => extract_simple_references(sql),
        Some(list) => {
            let ghost refs = references_view(list@);
            let mut out = NameSet::new();
            let mut i: usize = 0;
            while i < list.len()
                invariant
                    i <= list.len(),
                    refs == references_view(list@),
                    named_from(refs, 0, Set::empty()) == named_from(refs, i as int, out@),
                decreases list.len() - i,
            {
                let name = match &list[i].0 {
                    Some(t) => concat3(t.as_str(), ".", list[i].1.as_str()),
                    None => list[i].1.clone(),
                };
                assert(name@ == reference_name(refs[i as int]));
                out.insert(name);
                i = i + 1;
            }
            out
        },
    }
}

/// The names that a formula refers to.
pub fn extract_column_references(sql: &str) -> (r: NameSet)
    ensures
        r@ == column_references(sql@),
{
    let wrapped = concat2("SELECT ", sql);
    let parsed = parse_references(wrapped.as_str());
    references_from_parse(sql, parsed)
}

/// A bare name resolved against the models from `i` on: the first model
/// with a metric of that name qualifies it.
pub open spec fn resolve_from(models: Seq<ModelView>, name: Seq<char>, i: int) -> Seq<char>
    decreases models.len() - i,
{
    if i < 0 || i >= models.len() {
        name
    } else if models[i].get_metric(name) is Some {
        models[i].name + "."@ + name
    } else {
        resolve_from(models, name, i + 1)
    }
}

/// A name resolved against the graph: a name with a `.` stays, a bare
/// name gets the first model with a metric of that name in front, and
/// stays bare where there is none.
pub open spec fn resolve(g: GraphView, name: Seq<char>) -> Seq<char> {
    if name.contains('.') {
        name
    } else {
        resolve_from(g.models, name, 0)
    }
}

/// Resolves a name against the graph.
pub fn resolve_reference(ref_name: &str, graph: &SemanticGraph) -> (r: String)
    ensures
        r@ == resolve(graph@, ref_name@),
{
    let chars = to_chars(ref_name);
    if contains_char(&chars, '.') {
        return ref_name.to_owned();
    }
    let models = graph.models();
    let mut i: usize = 0;
    while i < models.len()
        invariant
            i <= models.len(),
            crate::graph::models_view(models@) == graph@.models,
            !ref_name@.contains('.'),
            resolve_from(graph@.models, ref_name@, 0) == resolve_from(
                graph@.models,
                ref_name@,
                i as int,
            ),
        decreases models.len() - i,
    {
        assert(graph@.models[i as int] == models@[i as int]@);
        match models[i].get_metric(ref_name) {
            Some(_) => {
                assert(graph@.models[i as int].get_metric(ref_name@) is Some);
                return concat3(models[i].name.as_str(), ".", ref_name);
            },
            None => {
                assert(graph@.models[i as int].get_metric(ref_name@) is None);
            },
        }
        i = i + 1;
    }
    ref_name.to_owned()
}

/// The set of an optional name.
pub open spec fn opt_set(o: Option<Seq<char>>) -> Set<Seq<char>> {
    match o {
        Some(s) => set![s],
        None => Set::empty(),
    }
}

/// The names of `refs` from `i` on, each resolved against the graph where
/// there is one, added to `acc`.
pub open spec fn resolved_from(
    g: Option<GraphView>,
    refs: Seq<Seq<char>>,
    i: int,
    acc: Set<Seq<char>>,
) -> Set<Seq<char>>
    decreases refs.len() - i,
{
    if i < 0 || i >= refs.len() {
        acc
    } else {
        resolved_from(
            g,
            refs,
            i + 1,
            acc.insert(
                match g {
                    Some(gv) => resolve(gv, refs[i]),
                    None => refs[i],
                },
            ),
        )
    }
}

/// The direct dependencies of a metric, given the names `refs` that its
/// formula refers to: none for a simple metric; the numerator and the
/// denominator of a ratio; the backing metric of a cumulative metric or a
/// time comparison; for a derived metric its formula where that is one
/// qualified reference, and else the names in the formula, each resolved
/// against the graph where there is one.
pub open spec fn dependencies_of(m: MetricView, g: Option<GraphView>, refs: Set<Seq<char>>) -> Set<
    Seq<char>,
> {
    match m.kind {
        MetricType::Simple => Set::empty(),
        MetricType::Ratio => opt_set(m.numerator).union(opt_set(m.denominator)),
        MetricType::Cumulative => opt_set(m.sql),
        MetricType::TimeComparison => opt_set(m.base_metric),
        MetricType::Derived => match m.sql {
            None => Set::empty(),
            Some(sql) => if simple_reference(sql) {
                set![sql]
            } else {
                match g {
                    Some(gv) => refs.map(|r: Seq<char>| resolve(gv, r)),
                    None => refs,
                }
            },
        },
    }
}

/// The direct dependencies of a metric.
pub open spec fn dependencies(m: MetricView, g: Option<GraphView>) -> Set<Seq<char>> {
    dependencies_of(m, g, column_references(m.sql_expr()))
}

/// The view of an optional graph.
pub open spec fn graph_view(g: Option<&SemanticGraph>) -> Option<GraphView> {
    match g {
        Some(x) => Some(x@),
        None => None,
    }
}

/// The direct dependencies of a metric, given the names that its formula
/// refers to.
pub fn dependencies_from(metric: &Metric, graph: Option<&SemanticGraph>, refs: &NameSet) -> (r: NameSet)
    ensures
        r@ == dependencies_of(metric@, graph_view(graph), refs@),
{
    let mut deps = NameSet::new();
    match metric.kind {
        MetricType::Simple => {},
        MetricType::Ratio => {
            match &metric.numerator {
                Some(n) => {
                    deps.insert(n.clone());
                },
                None => {},
            }
            match &metric.denominator {
                Some(d) => {
                    deps.insert(d.clone());
                },
                None => {},
            }
            assert(deps@ =~= opt_set(metric@.numerator).union(opt_set(metric@.denominator)));
        },
        MetricType::Cumulative => {
            match &metric.sql {
                Some(s) => {
                    deps.insert(s.clone());
                },
                None => {},
            }
            assert(deps@ =~= opt_set(metric@.sql));
        },
        MetricType::TimeComparison => {
            match &metric.base_metric {
                Some(b) => {
                    deps.insert(b.clone());
                },
                None => {},
            }
            assert(deps@ =~= opt_set(metric@.base_metric));
        },
        MetricType::Derived => {
            match &metric.sql {
                None => {},
                Some(sql) => {
                    if is_simple_reference(sql.as_str()) {
                        deps.insert(sql.clone());
                        assert(deps@ =~= set![sql@]);
                    } else {
                        let n = refs.len();
                        let ghost order = refs.order();
                        let ghost gv = graph_view(graph);
                        let mut i: usize = 0;
                        while i < n
                            invariant
                                i <= n,
                                n == refs.order().len(),
                                order == refs.order(),
                                gv == graph_view(graph),
                                deps@ == resolved_from(gv, order.subrange(0, i as int), 0, Set::empty()),
                            decreases n - i,
                        {
                            let name = refs.get(i);
                            let resolved = match graph {
                                Some(g) => resolve_reference(name, g),
                                None => name.to_owned(),
                            };
                            proof {
                                lemma_resolved_push(gv, order.subrange(0, i as int), order[i as int]);
                                assert(order.subrange(0, i as int).push(order[i as int])
                                    =~= order.subrange(0, i + 1));
                            }
                            deps.insert(resolved);
                            i = i + 1;
                        }
                        proof {
                            assert(order.subrange(0, n as int) =~= order);
                            refs.lemma_order();
                            lemma_resolved_all(gv, order);
                        }
                    }
                },
            }
        },
    }
    deps
}

/// Resolving one more name adds its resolution to the set.
proof fn lemma_resolved_push(g: Option<GraphView>, refs: Seq<Seq<char>>, name: Seq<char>)
    ensures
        resolved_from(g, refs.push(name), 0, Set::empty()) == resolved_from(
            g,
            refs,
            0,
            Set::empty(),
        ).insert(
            match g {
                Some(gv) => resolve(gv, name),
                None => name,
            },
        ),
{
    lemma_resolved_push_from(g, refs, name, 0, Set::empty());
}

/// Resolving one more name adds its resolution to the set, from any place on.
proof fn lemma_resolved_push_from(
    g: Option<GraphView>,
    refs: Seq<Seq<char>>,
    name: Seq<char>,
    i: int,
    acc: Set<Seq<char>>,
)
    requires
        0 <= i <= refs.len(),
    ensures
        resolved_from(g, refs.push(name), i, acc) == resolved_from(g, refs, i, acc).insert(
            match g {
                Some(gv) => resolve(gv, name),
                None => name,
            },
        ),
    decreases refs.len() - i,
{
    if i < refs.len() {
        assert(refs.push(name)[i] == refs[i]);
        lemma_resolved_push_from(
            g,
            refs,
            name,
            i + 1,
            acc.insert(
                match g {
                    Some(gv) => resolve(gv, refs[i]),
                    None => refs[i],
                },
            ),
        );
    } else {
        assert(refs.push(name)[i] == name);
        let x = match g {
            Some(gv) => resolve(gv, name),
            None => name,
        };
        assert(resolved_from(g, refs.push(name), i + 1, acc.insert(x)) == acc.insert(x));
        assert(resolved_from(g, refs, i, acc) == acc);
    }
}

/// Resolving the names one by one gives the resolutions of all of them.
proof fn lemma_resolved_all(g: Option<GraphView>, refs: Seq<Seq<char>>)
    ensures
        resolved_from(g, refs, 0, Set::empty()) == match g {
            Some(gv) => refs.to_set().map(|r: Seq<char>| resolve(gv, r)),
            None => refs.to_set(),
        },
    decreases refs.len(),
{
    let f = |r: Seq<char>|
        match g {
            Some(gv) => resolve(gv, r),
            None => r,
        };
    let target = match g {
        Some(gv) => refs.to_set().map(|r: Seq<char>| resolve(gv, r)),
        None => refs.to_set(),
    };
    if refs.len() == 0 {
        assert(refs.to_set() =~= Set::empty());
        assert(target =~= Set::empty());
    } else {
        let front = refs.drop_last();
        let last = refs.last();
        lemma_resolved_all(g, front);
        assert(front.push(last) =~= refs);
        lemma_resolved_push(g, front, last);
        let prev = resolved_from(g, front, 0, Set::empty());
        assert(prev.insert(f(last)) =~= target) by {
            assert forall|x: Seq<char>| prev.insert(f(last)).contains(x) implies target.contains(
                x,
            ) by {
                if x == f(last) {
                    assert(refs[refs.len() - 1] == last);
                    assert(refs.to_set().contains(last));
                } else {
                    match g {
                        Some(gv) => {
                            let a = choose|a: Seq<char>|
                                front.to_set().contains(a) && x == resolve(gv, a);
                            let k = choose|k: int| 0 <= k < front.len() && front[k] == a;
                            assert(refs[k] == a);
                            assert(refs.to_set().contains(a));
                        },
                        None => {
                            let k = choose|k: int| 0 <= k < front.len() && front[k] == x;
                            assert(refs[k] == x);
                        },
                    }
                }
            }
            assert forall|x: Seq<char>| target.contains(x) implies prev.insert(f(last)).contains(
                x,
            ) by {
                match g {
                    Some(gv) => {
                        let a = choose|a: Seq<char>|
                            refs.to_set().contains(a) && x == resolve(gv, a);
                        let k = choose|k: int| 0 <= k < refs.len() && refs[k] == a;
                        if k < front.len() {
                            assert(front[k] == a);
                            assert(front.to_set().contains(a));
                        }
                    },
                    None => {
                        let k = choose|k: int| 0 <= k < refs.len() && refs[k] == x;
                        if k < front.len() {
                            assert(front[k] == x);
                        }
                    },
                }
            }
        }
    }
}

/// The direct dependencies of a metric: the names of the metrics that its
/// definition refers to, qualified by their model where the graph knows
/// one.
pub fn extract_dependencies(metric: &Metric, graph: Option<&SemanticGraph>) -> (r: NameSet)
    ensures
        r@ == dependencies(metric@, graph_view(graph)),
{
    let parses = match metric.kind {
        MetricType::Derived => match &metric.sql {
            Some(sql) => !is_simple_reference(sql.as_str()),
            None => false,
        },
        _ => false,
    };
    let refs = if parses {
        extract_column_references(metric.sql_expr())
    } else {
        NameSet::new()
    };
    dependencies_from(metric, graph, &refs)
}

} // verus!
