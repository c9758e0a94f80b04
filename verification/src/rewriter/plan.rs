//! The plan for one `SELECT`: which of its tables are models, under which
//! aliases their columns are written, and which joins bring in the models
//! that it refers to without naming them after `FROM`.

use vstd::prelude::*;
use vstd::string::*;
use crate::error::ErrorView;
use crate::error::SidemanticError;
use crate::graph::GraphView;
use crate::graph::JoinStep;
use crate::graph::JoinStepView;
use crate::graph::steps_view;
use crate::model::Model;
use crate::model::ModelView;
use crate::text::contains_name;
use crate::text::find_from;
use crate::text::fresh_alias;
use crate::text::fresh_alias_for;
use crate::text::str_eq;
use crate::text::views;
use crate::tree::ColumnName;
use crate::tree::ColumnNameView;
use crate::tree::ExprView;
use crate::tree::FromItem;
use crate::tree::FromView;
use crate::tree::ItemView;
use crate::tree::LeftJoin;
use crate::tree::LeftJoinView;
use crate::tree::ProjectionItem;
use crate::tree::SelectTree;
use crate::tree::SelectView;
use crate::tree::SourceView;
use crate::tree::SqlExpr;
use crate::tree::TableRef;
use crate::tree::TableRefView;
use crate::tree::TableSource;
use crate::tree::columns_view;
use crate::tree::from_view;
use crate::tree::items_view;
use crate::tree::left_joins_view;
use crate::rewriter::QueryRewriter;

verus! {

/// A model of a query with the alias under which its columns are written.
#[derive(Debug)]
pub struct ModelRef {
    pub model: String,
    pub alias: String,
}

/// The mathematical content of a [`ModelRef`].
pub struct ModelRefView {
    pub model: Seq<char>,
    pub alias: Seq<char>,
}

impl View for ModelRef {
    type V = ModelRefView;

    open spec fn view(&self) -> ModelRefView {
        ModelRefView { model: self.model@, alias: self.alias@ }
    }
}

impl Clone for ModelRef {
    fn clone(&self) -> (r: Self)
        ensures
            r@ == self@,
    {
        ModelRef { model: self.model.clone(), alias: self.alias.clone() }
    }
}

/// The views of a list of model references.
pub open spec fn refs_view(v: Seq<ModelRef>) -> Seq<ModelRefView> {
    v.map_values(|r: ModelRef| r@)
}

/// The models of a list of model references.
pub open spec fn ref_models(refs: Seq<ModelRefView>) -> Seq<Seq<char>> {
    refs.map_values(|r: ModelRefView| r.model)
}

/// The model that a table reference names: a table written by name whose
/// last part is the name of a model of the graph.
pub open spec fn table_model(g: GraphView, t: TableRefView) -> Option<Seq<char>> {
    match t {
        TableRefView::Named { path, alias_name, written_alias, source } => if path.len() > 0
            && g.has_model(path.last()) {
            Some(path.last())
        } else {
            None
        },
        _ => None,
    }
}

/// The name under which the columns of a table are written in the query:
/// its alias, or else the last part of its name.
pub open spec fn visible_name(t: TableRefView) -> Option<Seq<char>> {
    match t {
        TableRefView::Named { path, alias_name, written_alias, source } => match alias_name {
            Some(a) => Some(a),
            None => if path.len() > 0 {
                Some(path.last())
            } else {
                None
            },
        },
        TableRefView::Physical { table, alias, written_alias } => Some(alias),
        TableRefView::Other(t) => None,
    }
}

/// `acc` with the visible names of the tables from `i` on.
pub open spec fn visible_names_from(from: Seq<FromView>, i: int, acc: Seq<Seq<char>>) -> Seq<
    Seq<char>,
>
    decreases from.len() - i,
{
    if i < 0 || i >= from.len() {
        acc
    } else {
        match visible_name(from[i].table) {
            Some(n) => visible_names_from(from, i + 1, acc.push(n)),
            None => visible_names_from(from, i + 1, acc),
        }
    }
}

/// The models after `FROM` from `i` on, each with its alias, added to
/// `refs`: the alias that is written, or else a fresh one, which is then
/// taken.
pub open spec fn from_refs_from(
    g: GraphView,
    from: Seq<FromView>,
    i: int,
    refs: Seq<ModelRefView>,
    taken: Seq<Seq<char>>,
) -> (Seq<ModelRefView>, Seq<Seq<char>>)
    decreases from.len() - i,
{
    if i < 0 || i >= from.len() {
        (refs, taken)
    } else {
        match table_model(g, from[i].table) {
            None => from_refs_from(g, from, i + 1, refs, taken),
            Some(m) => match from[i].table->Named_alias_name {
                Some(a) => from_refs_from(
                    g,
                    from,
                    i + 1,
                    refs.push(ModelRefView { model: m, alias: a }),
                    taken,
                ),
                None => from_refs_from(
                    g,
                    from,
                    i + 1,
                    refs.push(ModelRefView { model: m, alias: fresh_alias(taken, m) }),
                    taken.push(fresh_alias(taken, m)),
                ),
            },
        }
    }
}

/// The models after `FROM`, each with its alias, and the names that are
/// taken once they have theirs.
pub open spec fn from_refs(g: GraphView, from: Seq<FromView>) -> (
    Seq<ModelRefView>,
    Seq<Seq<char>>,
) {
    from_refs_from(g, from, 0, Seq::empty(), visible_names_from(from, 0, Seq::empty()))
}

/// The qualifiers of the qualified columns of an expression, in the order
/// in which they are written.
pub open spec fn qualifiers(e: ExprView) -> Seq<Seq<char>>
    decreases e,
{
    match e {
        ExprView::Column { qualifier, name, source } => seq![qualifier],
        ExprView::Binary { left, op, right } => qualifiers(*left) + qualifiers(*right),
        ExprView::Unary { operator, operand } => qualifiers(*operand),
        ExprView::Nested(inner) => qualifiers(*inner),
        ExprView::Call { path, columns, source } => columns.map_values(
            |c: ColumnNameView| c.qualifier,
        ),
        ExprView::Other { columns, source } => columns.map_values(|c: ColumnNameView| c.qualifier),
        _ => Seq::empty(),
    }
}

/// `acc` with the qualifiers of the items of the select list from `i` on.
pub open spec fn item_qualifiers_from(items: Seq<ItemView>, i: int, acc: Seq<Seq<char>>) -> Seq<
    Seq<char>,
>
    decreases items.len() - i,
{
    if i < 0 || i >= items.len() {
        acc
    } else {
        match items[i].expr() {
            Some(e) => item_qualifiers_from(items, i + 1, acc + qualifiers(e)),
            None => item_qualifiers_from(items, i + 1, acc),
        }
    }
}

/// The qualifiers of the select list and of the condition.
pub open spec fn referenced(s: SelectView) -> Seq<Seq<char>> {
    match s.selection {
        Some(e) => item_qualifiers_from(s.projection, 0, Seq::empty()) + qualifiers(e),
        None => item_qualifiers_from(s.projection, 0, Seq::empty()),
    }
}

/// `acc` with those of the qualifiers from `i` on that name a model of the
/// graph that is not present, each once.
pub open spec fn targets_from(
    g: GraphView,
    present: Seq<Seq<char>>,
    qs: Seq<Seq<char>>,
    i: int,
    acc: Seq<Seq<char>>,
) -> Seq<Seq<char>>
    decreases qs.len() - i,
{
    if i < 0 || i >= qs.len() {
        acc
    } else if g.has_model(qs[i]) && !present.contains(qs[i]) && !acc.contains(qs[i]) {
        targets_from(g, present, qs, i + 1, acc.push(qs[i]))
    } else {
        targets_from(g, present, qs, i + 1, acc)
    }
}

/// The alias of the first reference to the model.
pub open spec fn alias_from(refs: Seq<ModelRefView>, model: Seq<char>, i: int) -> Option<Seq<char>>
    decreases refs.len() - i,
{
    if i < 0 || i >= refs.len() {
        None
    } else if refs[i].model == model {
        Some(refs[i].alias)
    } else {
        alias_from(refs, model, i + 1)
    }
}

/// The parts of a name between its dots.
pub open spec fn split_dots(s: Seq<char>) -> Seq<Seq<char>>
    decreases s.len(),
{
    match find_from(s, seq!['.'], 0) {
        Some(d) => if 0 <= d < s.len() {
            seq![s.subrange(0, d)] + split_dots(s.subrange(d + 1, s.len() as int))
        } else {
            seq![s]
        },
        None => seq![s],
    }
}

/// Where the rows of a model come from: its subquery where it has one,
/// or else its table, the name split at its dots.
pub open spec fn source_of(m: ModelView) -> SourceView {
    match m.sql {
        Some(q) => SourceView::Subquery(q),
        None => SourceView::Table(split_dots(m.table_name())),
    }
}

/// The joins for the steps of a join plan from `i` on, added to `joins`.
/// Each joined model gets a fresh alias and joins the references.
pub open spec fn planned_joins_from(
    g: GraphView,
    steps: Seq<JoinStepView>,
    i: int,
    refs: Seq<ModelRefView>,
    taken: Seq<Seq<char>>,
    joins: Seq<LeftJoinView>,
) -> Result<(Seq<ModelRefView>, Seq<LeftJoinView>), ErrorView>
    decreases steps.len() - i,
{
    if i < 0 || i >= steps.len() {
        Ok((refs, joins))
    } else {
        match g.get_model(steps[i].to_model) {
            None => Err(ErrorView::ModelNotFound(steps[i].to_model)),
            Some(m) => match alias_from(refs, steps[i].from_model, 0) {
                None => Err(ErrorView::ModelNotFound(steps[i].from_model)),
                Some(from_alias) => planned_joins_from(
                    g,
                    steps,
                    i + 1,
                    refs.push(
                        ModelRefView {
                            model: steps[i].to_model,
                            alias: fresh_alias(taken, steps[i].to_model),
                        },
                    ),
                    taken.push(fresh_alias(taken, steps[i].to_model)),
                    joins.push(
                        LeftJoinView {
                            table: source_of(m),
                            alias: fresh_alias(taken, steps[i].to_model),
                            from_alias,
                            from_key: steps[i].from_key,
                            to_key: steps[i].to_key,
                        },
                    ),
                ),
            },
        }
    }
}

/// What the rewriter has decided for one `SELECT`: the models that its
/// references resolve to, those after `FROM` first and the joined ones
/// after them, and the joins to add.
#[derive(Debug)]
pub struct RewritePlan {
    pub refs: Vec<ModelRef>,
    pub joins: Vec<LeftJoin>,
}

/// The mathematical content of a [`RewritePlan`].
pub struct PlanView {
    pub refs: Seq<ModelRefView>,
    pub joins: Seq<LeftJoinView>,
}

impl View for RewritePlan {
    type V = PlanView;

    open spec fn view(&self) -> PlanView {
        PlanView { refs: refs_view(self.refs@), joins: left_joins_view(self.joins@) }
    }
}

/// The models to join for a `SELECT` whose models after `FROM` are `refs`.
pub open spec fn join_targets(g: GraphView, refs: Seq<ModelRefView>, s: SelectView) -> Seq<Seq<char>> {
    targets_from(g, ref_models(refs), referenced(s), 0, Seq::empty())
}

/// The plan for a `SELECT`: none where no table after `FROM` names a
/// model; else the models after `FROM` with their aliases, and a join for
/// every step of the join plan from the first of them to the models that
/// the select list and the condition refer to.
pub open spec fn plan_select(g: GraphView, s: SelectView) -> Result<Option<PlanView>, ErrorView> {
    let (refs, taken) = from_refs(g, s.from);
    if refs.len() == 0 {
        Ok(None)
    } else {
        match g.join_plan(refs[0].model, ref_models(refs), join_targets(g, refs, s)) {
            Err(e) => Err(e),
            Ok(steps) => match planned_joins_from(g, steps, 0, refs, taken, Seq::empty()) {
                Err(e) => Err(e),
                Ok((all, joins)) => Ok(Some(PlanView { refs: all, joins })),
            },
        }
    }
}

/// Adds the qualifiers of the qualified columns of an expression.
fn collect_qualifiers(e: &SqlExpr, out: &mut Vec<String>)
    ensures
        views(final(out)@) == views(old(out)@) + qualifiers(e@),
    decreases e,
{
    let ghost before = views(out@);
    match e {
        SqlExpr::Column { qualifier, name, source } => {
            out.push(qualifier.clone());
            assert(views(out@) =~= before + seq![qualifier@]);
        },
        SqlExpr::Binary { left, op, right } => {
            collect_qualifiers(left, out);
            collect_qualifiers(right, out);
            assert(views(out@) =~= before + (qualifiers(left@) + qualifiers(right@)));
        },
        SqlExpr::Unary { operator, operand } => {
            collect_qualifiers(operand, out);
        },
        SqlExpr::Nested(inner) => {
            collect_qualifiers(inner, out);
        },
        SqlExpr::Call { path, columns, source } => {
            collect_column_qualifiers(columns, out);
        },
        SqlExpr::Other { columns, source } => {
            collect_column_qualifiers(columns, out);
        },
        _ => {
            assert(views(out@) =~= before + Seq::<Seq<char>>::empty());
        },
    }
}

/// Adds the qualifiers of the given columns.
fn collect_column_qualifiers(columns: &Vec<ColumnName>, out: &mut Vec<String>)
    ensures
        views(final(out)@) == views(old(out)@) + columns_view(columns@).map_values(
            |c: ColumnNameView| c.qualifier,
        ),
{
    let ghost before = views(out@);
    let ghost all = columns_view(columns@).map_values(|c: ColumnNameView| c.qualifier);
    let mut i: usize = 0;
    assert(views(out@) =~= before + all.subrange(0, 0));
    while i < columns.len()
        invariant
            i <= columns.len(),
            all == columns_view(columns@).map_values(|c: ColumnNameView| c.qualifier),
            views(out@) == before + all.subrange(0, i as int),
        decreases columns.len() - i,
    {
        let ghost prev = views(out@);
        out.push(columns[i].qualifier.clone());
        assert(views(out@) =~= prev.push(columns@[i as int]@.qualifier));
        i = i + 1;
        assert(before + all.subrange(0, i as int) =~= (before + all.subrange(0, i - 1)).push(
            all[i - 1],
        ));
    }
    assert(all.subrange(0, i as int) =~= all);
}

/// The parts of a name between its dots.
pub fn split_at_dots(s: &str) -> (r: Vec<String>)
    ensures
        views(r@) == split_dots(s@),
{
    let chars = crate::text::to_chars(s);
    let dot: Vec<char> = vec!['.'];
    assert(dot@ =~= seq!['.']);
    let mut out: Vec<String> = Vec::new();
    let mut start: usize = 0;
    assert(chars@.subrange(0, chars.len() as int) =~= chars@);
    assert(views(out@) + split_dots(chars@.subrange(0, chars.len() as int)) =~= split_dots(s@));
    loop
        invariant
            start <= chars.len(),
            chars@ == s@,
            dot@ == seq!['.'],
            views(out@) + split_dots(chars@.subrange(start as int, chars.len() as int))
                == split_dots(s@),
        decreases chars.len() - start,
    {
        let ghost rest = chars@.subrange(start as int, chars.len() as int);
        let ghost prev = views(out@);
        match crate::text::find_sub(&chars, &dot, start) {
            Some(d) => {
                proof {
                    crate::text::lemma_find_from(chars@, dot@, start as int);
                    lemma_find_shifted(chars@, dot@, start as int, d as int);
                    assert(rest.subrange(0, d - start) =~= chars@.subrange(start as int, d as int));
                    assert(rest.subrange(d - start + 1, rest.len() as int) =~= chars@.subrange(
                        d + 1,
                        chars.len() as int,
                    ));
                }
                let part = crate::text::slice_chars(&chars, start, d);
                out.push(crate::text::from_chars(&part));
                assert(views(out@) =~= prev.push(part@));
                assert(prev.push(part@) + split_dots(chars@.subrange(d + 1, chars.len() as int))
                    =~= prev + (seq![part@] + split_dots(
                    chars@.subrange(d + 1, chars.len() as int),
                )));
                start = d + 1;
            },
            None => {
                proof {
                    crate::text::lemma_find_from(chars@, dot@, start as int);
                    lemma_find_none_shifted(chars@, dot@, start as int);
                }
                let part = crate::text::slice_chars(&chars, start, chars.len());
                out.push(crate::text::from_chars(&part));
                assert(views(out@) =~= prev.push(part@));
                assert(prev.push(rest) =~= prev + seq![rest]);
                return out;
            },
        }
    }
}

/// A match in a text from `start` on is a match in the rest of the text.
proof fn lemma_find_shifted(s: Seq<char>, needle: Seq<char>, start: int, d: int)
    requires
        0 <= start <= s.len(),
        find_from(s, needle, start) == Some(d),
    ensures
        find_from(s.subrange(start, s.len() as int), needle, 0) == Some(d - start),
{
    let rest = s.subrange(start, s.len() as int);
    crate::text::lemma_find_from(s, needle, start);
    crate::text::lemma_find_from(rest, needle, 0);
    assert(crate::text::matches_at(rest, needle, d - start)) by {
        assert(rest.subrange(d - start, d - start + needle.len()) =~= s.subrange(
            d,
            d + needle.len(),
        ));
    }
    match find_from(rest, needle, 0) {
        Some(k) => {
            if k < d - start {
                assert(crate::text::matches_at(s, needle, k + start)) by {
                    assert(rest.subrange(k, k + needle.len()) =~= s.subrange(
                        k + start,
                        k + start + needle.len(),
                    ));
                }
            }
        },
        None => {},
    }
}

/// No match in a text from `start` on is no match in the rest of the text.
proof fn lemma_find_none_shifted(s: Seq<char>, needle: Seq<char>, start: int)
    requires
        0 <= start <= s.len(),
        find_from(s, needle, start) is None,
    ensures
        find_from(s.subrange(start, s.len() as int), needle, 0) is None,
{
    let rest = s.subrange(start, s.len() as int);
    crate::text::lemma_find_from(s, needle, start);
    crate::text::lemma_find_from(rest, needle, 0);
    match find_from(rest, needle, 0) {
        Some(k) => {
            assert(crate::text::matches_at(s, needle, k + start)) by {
                assert(rest.subrange(k, k + needle.len()) =~= s.subrange(
                    k + start,
                    k + start + needle.len(),
                ));
            }
        },
        None => {},
    }
}

/// Where the rows of a model come from.
pub fn model_source(m: &Model) -> (r: TableSource)
    ensures
        r@ == source_of(m@),
{
    match &m.sql {
        Some(q) => TableSource::Subquery(q.clone()),
        None => TableSource::Table(split_at_dots(m.table_name())),
    }
}

/// The alias of the first reference to the model.
pub fn alias_of(refs: &Vec<ModelRef>, model: &str) -> (r: Option<String>)
    ensures
        crate::segment::opt_view(r) == alias_from(refs_view(refs@), model@, 0),
{
    let mut i: usize = 0;
    while i < refs.len()
        invariant
            i <= refs.len(),
            alias_from(refs_view(refs@), model@, 0) == alias_from(refs_view(refs@), model@, i as int),
        decreases refs.len() - i,
    {
        assert(refs_view(refs@)[i as int] == refs@[i as int]@);
        if str_eq(refs[i].model.as_str(), model) {
            return Some(refs[i].alias.clone());
        }
        i = i + 1;
    }
    None
}

impl<'a> QueryRewriter<'a> {
    /// The model that a table reference names.
    pub(crate) fn model_of_table(&self, t: &TableRef) -> (r: Option<&Model>)
        ensures
            match r {
                Some(m) => table_model(self.graph()@, t@) == Some(m@.name) && self.graph()@.get_model(
                    m@.name,
                ) == Some(m@),
                None => table_model(self.graph()@, t@) is None,
            },
    {
        match t {
            TableRef::Named { path, alias_name, written_alias, source } => {
                if path.len() == 0 {
                    return None;
                }
                let last = &path[path.len() - 1];
                assert(views(path@).last() == last@);
                match self.graph.get_model(last.as_str()) {
                    Some(m) => {
                        proof {
                            crate::text::lemma_first_named(self.graph()@.names(), last@, 0);
                        }
                        Some(m)
                    },
                    None => None,
                }
            },
            _ => None,
        }
    }

    /// The models after `FROM`, each with its alias, and the names that
    /// are taken once they have theirs.
    fn find_model_references(&self, from: &Vec<FromItem>) -> (r: (Vec<ModelRef>, Vec<String>))
        ensures
            (refs_view(r.0@), views(r.1@)) == from_refs(self.graph()@, from_view(from@)),
    {
        let ghost fv = from_view(from@);
        let ghost g = self.graph()@;
        let mut taken: Vec<String> = Vec::new();
        let mut i: usize = 0;
        assert(views(taken@) =~= Seq::empty());
        while i < from.len()
            invariant
                i <= from.len(),
                fv == from_view(from@),
                visible_names_from(fv, 0, Seq::empty()) == visible_names_from(
                    fv,
                    i as int,
                    views(taken@),
                ),
            decreases from.len() - i,
        {
            assert(fv[i as int] == from@[i as int]@);
            let ghost prev = views(taken@);
            match &from[i].table {
                TableRef::Named { path, alias_name, written_alias, source } => {
                    match alias_name {
                        Some(a) => {
                            taken.push(a.clone());
                            assert(views(taken@) =~= prev.push(a@));
                        },
                        None => {
                            if path.len() > 0 {
                                let last = path[path.len() - 1].clone();
                                assert(views(path@).last() == last@);
                                taken.push(last);
                                assert(views(taken@) =~= prev.push(views(path@).last()));
                            }
                        },
                    }
                },
                TableRef::Physical { table, alias, written_alias } => {
                    taken.push(alias.clone());
                    assert(views(taken@) =~= prev.push(alias@));
                },
                TableRef::Other(t) => {},
            }
            i = i + 1;
        }
        let mut refs: Vec<ModelRef> = Vec::new();
        assert(refs_view(refs@) =~= Seq::empty());
        let mut k: usize = 0;
        while k < from.len()
            invariant
                k <= from.len(),
                fv == from_view(from@),
                g == self.graph()@,
                from_refs(g, fv) == from_refs_from(g, fv, k as int, refs_view(refs@), views(taken@)),
            decreases from.len() - k,
        {
            assert(fv[k as int] == from@[k as int]@);
            match self.model_of_table(&from[k].table) {
                None => {},
                Some(m) => {
                    let ghost prev = refs_view(refs@);
                    let ghost names = views(taken@);
                    match &from[k].table {
                        TableRef::Named { path, alias_name, written_alias, source } => {
                            match alias_name {
                                Some(a) => {
                                    let r = ModelRef { model: m.name.clone(), alias: a.clone() };
                                    refs.push(r);
                                    assert(refs_view(refs@) =~= prev.push(
                                        ModelRefView { model: m@.name, alias: a@ },
                                    ));
                                },
                                None => {
                                    let alias = fresh_alias_for(&taken, m.name.as_str());
                                    let r = ModelRef { model: m.name.clone(), alias: alias.clone() };
                                    refs.push(r);
                                    taken.push(alias);
                                    assert(refs_view(refs@) =~= prev.push(
                                        ModelRefView {
                                            model: m@.name,
                                            alias: fresh_alias(names, m@.name),
                                        },
                                    ));
                                    assert(views(taken@) =~= names.push(
                                        fresh_alias(names, m@.name),
                                    ));
                                },
                            }
                        },
                        _ => {},
                    }
                },
            }
            k = k + 1;
        }
        (refs, taken)
    }

    /// The models to join: those that the select list and the condition
    /// refer to by name and that are not after `FROM`.
    fn find_join_targets(&self, refs: &Vec<ModelRef>, select: &SelectTree) -> (r: Vec<String>)
        ensures
            views(r@) == join_targets(self.graph()@, refs_view(refs@), select@),
    {
        let ghost g = self.graph()@;
        let ghost items = items_view(select.projection@);
        let mut qs: Vec<String> = Vec::new();
        assert(views(qs@) =~= Seq::empty());
        let mut i: usize = 0;
        while i < select.projection.len()
            invariant
                i <= select.projection.len(),
                items == items_view(select.projection@),
                item_qualifiers_from(items, 0, Seq::empty()) == item_qualifiers_from(
                    items,
                    i as int,
                    views(qs@),
                ),
            decreases select.projection.len() - i,
        {
            assert(items[i as int] == select.projection@[i as int]@);
            match &select.projection[i] {
                ProjectionItem::Unnamed(e) => collect_qualifiers(e, &mut qs),
                ProjectionItem::Aliased { expr, alias } => collect_qualifiers(expr, &mut qs),
                ProjectionItem::Named { expr, label } => collect_qualifiers(expr, &mut qs),
                ProjectionItem::Wildcard(w) => {},
            }
            i = i + 1;
        }
        match &select.selection {
            Some(e) => collect_qualifiers(e, &mut qs),
            None => {},
        }
        assert(views(qs@) == referenced(select@));
        let mut present: Vec<String> = Vec::new();
        let mut p: usize = 0;
        while p < refs.len()
            invariant
                p <= refs.len(),
                present@.len() == p,
                forall|j: int| 0 <= j < p ==> present@[j]@ == refs@[j]@.model,
            decreases refs.len() - p,
        {
            present.push(refs[p].model.clone());
            p = p + 1;
        }
        assert(views(present@) =~= ref_models(refs_view(refs@)));
        let ghost all = views(qs@);
        let ghost there = views(present@);
        let mut out: Vec<String> = Vec::new();
        assert(views(out@) =~= Seq::empty());
        let mut t: usize = 0;
        while t < qs.len()
            invariant
                t <= qs.len(),
                all == views(qs@),
                there == views(present@),
                g == self.graph()@,
                targets_from(g, there, all, 0, Seq::empty()) == targets_from(
                    g,
                    there,
                    all,
                    t as int,
                    views(out@),
                ),
            decreases qs.len() - t,
        {
            assert(all[t as int] == qs@[t as int]@);
            let q = qs[t].as_str();
            if self.graph.get_model(q).is_some() && !contains_name(&present, q) && !contains_name(
                &out,
                q,
            ) {
                let ghost prev = views(out@);
                out.push(qs[t].clone());
                assert(views(out@) =~= prev.push(all[t as int]));
            }
            t = t + 1;
        }
        out
    }

    /// The joins for the steps of a join plan, and the references with
    /// the joined models added.
    fn plan_joins(
        &self,
        steps: &Vec<JoinStep>,
        refs: Vec<ModelRef>,
        taken: Vec<String>,
    ) -> (r: Result<RewritePlan, SidemanticError>)
        ensures
            match r {
                Ok(p) => planned_joins_from(
                    self.graph()@,
                    steps_view(steps@),
                    0,
                    refs_view(refs@),
                    views(taken@),
                    Seq::empty(),
                ) == Ok::<(Seq<ModelRefView>, Seq<LeftJoinView>), ErrorView>((p@.refs, p@.joins)),
                Err(e) => planned_joins_from(
                    self.graph()@,
                    steps_view(steps@),
                    0,
                    refs_view(refs@),
                    views(taken@),
                    Seq::empty(),
                ) == Err::<(Seq<ModelRefView>, Seq<LeftJoinView>), ErrorView>(e@),
            },
    {
        let ghost g = self.graph()@;
        let ghost sv = steps_view(steps@);
        let ghost refs0 = refs_view(refs@);
        let ghost taken0 = views(taken@);
        let mut all = refs;
        let mut names = taken;
        let mut joins: Vec<LeftJoin> = Vec::new();
        assert(left_joins_view(joins@) =~= Seq::empty());
        let mut i: usize = 0;
        while i < steps.len()
            invariant
                i <= steps.len(),
                g == self.graph()@,
                sv == steps_view(steps@),
                refs0 == refs_view(refs@),
                taken0 == views(taken@),
                planned_joins_from(g, sv, 0, refs0, taken0, Seq::empty()) == planned_joins_from(
                    g,
                    sv,
                    i as int,
                    refs_view(all@),
                    views(names@),
                    left_joins_view(joins@),
                ),
            decreases steps.len() - i,
        {
            assert(sv[i as int] == steps@[i as int]@);
            let step = &steps[i];
            let model = match self.graph.get_model(step.to_model.as_str()) {
                Some(m) => m,
                None => {
                    return Err(SidemanticError::ModelNotFound(step.to_model.clone()));
                },
            };
            let from_alias = match alias_of(&all, step.from_model.as_str()) {
                Some(a) => a,
                None => {
                    return Err(SidemanticError::ModelNotFound(step.from_model.clone()));
                },
            };
            let alias = fresh_alias_for(&names, step.to_model.as_str());
            let ghost prev_refs = refs_view(all@);
            let ghost prev_taken = views(names@);
            let ghost prev_joins = left_joins_view(joins@);
            let join = LeftJoin {
                table: model_source(model),
                alias: alias.clone(),
                from_alias,
                from_key: step.from_key.clone(),
                to_key: step.to_key.clone(),
            };
            let r = ModelRef { model: step.to_model.clone(), alias: alias.clone() };
            proof {
                assert(refs_view(all@.push(r)) =~= prev_refs.push(r@));
                assert(views(names@.push(alias)) =~= prev_taken.push(alias@));
                assert(left_joins_view(joins@.push(join)) =~= prev_joins.push(join@));
            }
            all.push(r);
            names.push(alias);
            joins.push(join);
            i = i + 1;
        }
        Ok(RewritePlan { refs: all, joins })
    }

    /// The plan for a `SELECT`: none where no table after `FROM` names a
    /// model.
    pub fn plan_select(&self, select: &SelectTree) -> (r: Result<Option<RewritePlan>, SidemanticError>)
        requires
            self.graph().wf(),
        ensures
            match r {
                Ok(Some(p)) => plan_select(self.graph()@, select@) == Ok::<
                    Option<PlanView>,
                    ErrorView,
                >(Some(p@)),
                Ok(None) => plan_select(self.graph()@, select@) == Ok::<Option<PlanView>, ErrorView>(
                    None,
                ),
                Err(e) => plan_select(self.graph()@, select@) == Err::<Option<PlanView>, ErrorView>(
                    e@,
                ),
            },
    {
        let (refs, taken) = self.find_model_references(&select.from);
        if refs.len() == 0 {
            return Ok(None);
        }
        let targets = self.find_join_targets(&refs, select);
        let mut present: Vec<String> = Vec::new();
        let mut p: usize = 0;
        while p < refs.len()
            invariant
                p <= refs.len(),
                present@.len() == p,
                forall|j: int| 0 <= j < p ==> present@[j]@ == refs@[j]@.model,
            decreases refs.len() - p,
        {
            present.push(refs[p].model.clone());
            p = p + 1;
        }
        assert(views(present@) =~= ref_models(refs_view(refs@)));
        assert(refs_view(refs@)[0] == refs@[0]@);
        let steps = match self.graph.join_plan(refs[0].model.as_str(), &present, &targets) {
            Ok(s) => s,
            Err(e) => {
                return Err(e);
            },
        };
        match self.plan_joins(&steps, refs, taken) {
            Ok(plan) => Ok(Some(plan)),
            Err(e) => Err(e),
        }
    }
}

} // verus!
