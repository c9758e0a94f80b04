//! The semantic graph: the models by name, the join edges that their
//! relationships induce, and the join paths between models.

pub mod search;
pub mod plan;

use vstd::prelude::*;
use vstd::string::*;
use crate::error::ErrorView;
use crate::error::SidemanticError;
use crate::model::Model;
use crate::model::ModelView;
use crate::model::RelationshipType;
use crate::model::RelationshipView;
use crate::text::concat3;
use crate::text::find_from;
use crate::text::find_sub;
use crate::text::first_named;
use crate::text::from_chars;
use crate::text::lemma_find_from;
use crate::text::lemma_first_named;
use crate::text::slice_chars;
use crate::text::str_eq;
use crate::text::to_chars;
use crate::graph::search::search;
use crate::graph::search::lemma_search;
use crate::graph::search::shortest_walk;

verus! {

/// One join of a path: from a key of one model to a key of another.
#[derive(Debug)]
pub struct JoinStep {
    pub from_model: String,
    pub to_model: String,
    pub from_key: String,
    pub to_key: String,
    pub relationship_type: RelationshipType,
}

/// The mathematical content of a [`JoinStep`].
pub struct JoinStepView {
    pub from_model: Seq<char>,
    pub to_model: Seq<char>,
    pub from_key: Seq<char>,
    pub to_key: Seq<char>,
    pub relationship_type: RelationshipType,
}

impl View for JoinStep {
    type V = JoinStepView;

    open spec fn view(&self) -> JoinStepView {
        JoinStepView {
            from_model: self.from_model@,
            to_model: self.to_model@,
            from_key: self.from_key@,
            to_key: self.to_key@,
            relationship_type: self.relationship_type,
        }
    }
}

impl Clone for JoinStep {
    fn clone(&self) -> (r: Self)
        ensures
            r@ == self@,
    {
        JoinStep {
            from_model: self.from_model.clone(),
            to_model: self.to_model.clone(),
            from_key: self.from_key.clone(),
            to_key: self.to_key.clone(),
            relationship_type: self.relationship_type,
        }
    }
}

impl JoinStepView {
    /// The same join walked the other way.
    pub open spec fn flipped(self) -> JoinStepView {
        JoinStepView {
            from_model: self.to_model,
            to_model: self.from_model,
            from_key: self.to_key,
            to_key: self.from_key,
            relationship_type: self.relationship_type.inverse(),
        }
    }
}

/// The views of a list of steps.
pub open spec fn steps_view(steps: Seq<JoinStep>) -> Seq<JoinStepView> {
    steps.map_values(|s: JoinStep| s@)
}

/// Copies of the given steps.
pub fn clone_steps(v: &Vec<JoinStep>) -> (r: Vec<JoinStep>)
    ensures
        steps_view(r@) == steps_view(v@),
{
    let mut out: Vec<JoinStep> = Vec::new();
    let mut i: usize = 0;
    while i < v.len()
        invariant
            i <= v.len(),
            out@.len() == i,
            forall|j: int| 0 <= j < i ==> out@[j]@ == v@[j]@,
        decreases v.len() - i,
    {
        out.push(v[i].clone());
        i = i + 1;
    }
    assert(steps_view(out@) =~= steps_view(v@));
    out
}

/// A sequence of joins that leads from one model to another.
#[derive(Debug)]
pub struct JoinPath {
    pub steps: Vec<JoinStep>,
}

impl View for JoinPath {
    type V = Seq<JoinStepView>;

    open spec fn view(&self) -> Seq<JoinStepView> {
        steps_view(self.steps@)
    }
}

impl Clone for JoinPath {
    fn clone(&self) -> (r: Self)
        ensures
            r@ == self@,
    {
        JoinPath { steps: clone_steps(&self.steps) }
    }
}

impl JoinPath {
    /// Whether the path has no step.
    pub fn is_empty(&self) -> (r: bool)
        ensures
            r == (self@.len() == 0),
    {
        self.steps.len() == 0
    }
}

/// The edge that a relationship of model `m` induces, from `m` to its target.
pub open spec fn forward_edge(m: ModelView, r: RelationshipView) -> JoinStepView {
    JoinStepView {
        from_model: m.name,
        to_model: r.name,
        from_key: r.fk(),
        to_key: r.pk(),
        relationship_type: r.kind,
    }
}

/// The edge that a relationship of model `m` induces back from its target
/// to `m`, with the keys swapped and the kind inverted.
pub open spec fn reverse_edge(m: ModelView, r: RelationshipView) -> JoinStepView {
    forward_edge(m, r).flipped()
}

/// The edges that one model contributes: one forward edge for each of its
/// relationships, in their order, then one reverse edge for each.
pub open spec fn model_edges(m: ModelView) -> Seq<JoinStepView> {
    m.relationships.map_values(|r: RelationshipView| forward_edge(m, r))
        + m.relationships.map_values(|r: RelationshipView| reverse_edge(m, r))
}

/// The edges of all the models, model after model.
pub open spec fn graph_edges(models: Seq<ModelView>) -> Seq<JoinStepView>
    decreases models.len(),
{
    if models.len() == 0 {
        Seq::empty()
    } else {
        graph_edges(models.drop_last()) + model_edges(models.last())
    }
}

/// Whether `w` is a walk along `edges` that starts at `from` and ends at
/// `to`: every step is an edge, and each step starts where the one before
/// it ended. The empty walk leads from a model to itself.
pub open spec fn is_walk(
    edges: Seq<JoinStepView>,
    from: Seq<char>,
    to: Seq<char>,
    w: Seq<JoinStepView>,
) -> bool {
    if w.len() == 0 {
        from == to
    } else {
        &&& w[0].from_model == from
        &&& w.last().to_model == to
        &&& forall|i: int| 0 <= i < w.len() ==> edges.contains(#[trigger] w[i])
        &&& forall|i: int, j: int|
            0 <= i && j == i + 1 && j < w.len() ==> (#[trigger] w[i]).to_model == (
            #[trigger] w[j]).from_model
    }
}

/// Whether `w` is a walk from `from` to `to` and no walk between them is shorter.
pub open spec fn is_shortest_walk(
    edges: Seq<JoinStepView>,
    from: Seq<char>,
    to: Seq<char>,
    w: Seq<JoinStepView>,
) -> bool {
    &&& is_walk(edges, from, to, w)
    &&& forall|v: Seq<JoinStepView>| #[trigger] is_walk(edges, from, to, v) ==> w.len() <= v.len()
}

/// Whether some walk leads from `from` to `to`.
pub open spec fn connected(edges: Seq<JoinStepView>, from: Seq<char>, to: Seq<char>) -> bool {
    exists|w: Seq<JoinStepView>| is_walk(edges, from, to, w)
}

/// The mathematical content of a [`SemanticGraph`]: its models in the order
/// in which their names were first added.
pub struct GraphView {
    pub models: Seq<ModelView>,
}

impl GraphView {
    /// The names of the models, in order.
    pub open spec fn names(self) -> Seq<Seq<char>> {
        self.models.map_values(|m: ModelView| m.name)
    }

    /// No two models share a name.
    pub open spec fn well_formed(self) -> bool {
        self.names().no_duplicates()
    }

    /// Whether a model of that name is in the graph.
    pub open spec fn has_model(self, name: Seq<char>) -> bool {
        first_named(self.names(), name, 0) is Some
    }

    /// The model of that name.
    pub open spec fn get_model(self, name: Seq<char>) -> Option<ModelView> {
        match first_named(self.names(), name, 0) {
            Some(i) => Some(self.models[i]),
            None => None,
        }
    }

    /// The graph with `m` put in: in the place of the model of the same
    /// name where there is one, at the end otherwise.
    pub open spec fn insert(self, m: ModelView) -> GraphView {
        match first_named(self.names(), m.name, 0) {
            Some(i) => GraphView { models: self.models.update(i, m) },
            None => GraphView { models: self.models.push(m) },
        }
    }

    /// The join edges of the graph, in the order in which they are tried.
    pub open spec fn edges(self) -> Seq<JoinStepView> {
        graph_edges(self.models)
    }

    /// The join path from `from` to `to`: empty where the two are the same,
    /// else what the breadth-first search over the edges finds.
    pub open spec fn join_path(self, from: Seq<char>, to: Seq<char>) -> Result<
        Seq<JoinStepView>,
        ErrorView,
    > {
        if from == to {
            Ok(Seq::empty())
        } else if !self.has_model(from) {
            Err(ErrorView::ModelNotFound(from))
        } else if !self.has_model(to) {
            Err(ErrorView::ModelNotFound(to))
        } else {
            match search(self.edges(), from, to) {
                Some(p) => Ok(p),
                None => Err(ErrorView::NoJoinPath { from, to }),
            }
        }
    }

    /// What holds of the join path from `from` to `to`: it is a shortest
    /// walk along the edges, and it fails exactly where a model is unknown
    /// or no walk exists.
    pub open spec fn join_result(
        self,
        from: Seq<char>,
        to: Seq<char>,
        r: Result<Seq<JoinStepView>, ErrorView>,
    ) -> bool {
        if from == to {
            r == Ok::<Seq<JoinStepView>, ErrorView>(Seq::empty())
        } else if !self.has_model(from) {
            r == Err::<Seq<JoinStepView>, ErrorView>(ErrorView::ModelNotFound(from))
        } else if !self.has_model(to) {
            r == Err::<Seq<JoinStepView>, ErrorView>(ErrorView::ModelNotFound(to))
        } else if connected(self.edges(), from, to) {
            r is Ok && is_shortest_walk(self.edges(), from, to, r->Ok_0)
        } else {
            r == Err::<Seq<JoinStepView>, ErrorView>(ErrorView::NoJoinPath { from, to })
        }
    }

    /// What parsing the reference `s` returns: the model, the field and the
    /// granularity, or the reason why there is none.
    pub open spec fn parse_reference(self, s: Seq<char>) -> Result<
        (Seq<char>, Seq<char>, Option<Seq<char>>),
        ErrorView,
    > {
        match find_from(s, seq!['.'], 0) {
            None => Err(ErrorView::InvalidReference(reference_complaint(s))),
            Some(dot) => {
                let model = s.subrange(0, dot);
                let rest = s.subrange(dot + 1, s.len() as int);
                if rest.contains('.') {
                    Err(ErrorView::InvalidReference(reference_complaint(s)))
                } else if !self.has_model(model) {
                    Err(ErrorView::ModelNotFound(model))
                } else {
                    match find_from(rest, seq!['_', '_'], 0) {
                        Some(p) => Ok(
                            (
                                model,
                                rest.subrange(0, p),
                                Some(rest.subrange(p + 2, rest.len() as int)),
                            ),
                        ),
                        None => Ok((model, rest, None)),
                    }
                }
            },
        }
    }
}

/// The text of the complaint about a reference that is not `model.field`.
pub open spec fn reference_complaint(s: Seq<char>) -> Seq<char> {
    "Expected 'model.field' format, got '"@ + s + "'"@
}

/// The text of the complaint about a model without a source.
pub open spec fn source_complaint(name: Seq<char>) -> Seq<char> {
    "Model '"@ + name + "' must have either 'table' or 'sql' defined"@
}

/// The view of what a search for a join path returned.
pub open spec fn path_result_view(r: Result<JoinPath, SidemanticError>) -> Result<
    Seq<JoinStepView>,
    ErrorView,
> {
    match r {
        Ok(p) => Ok(p@),
        Err(e) => Err(e@),
    }
}

/// The view of what parsing a reference returned.
pub open spec fn reference_result_view(
    r: Result<(String, String, Option<String>), SidemanticError>,
) -> Result<(Seq<char>, Seq<char>, Option<Seq<char>>), ErrorView> {
    match r {
        Ok((m, f, g)) => Ok(
            (
                m@,
                f@,
                match g {
                    Some(x) => Some(x@),
                    None => None,
                },
            ),
        ),
        Err(e) => Err(e@),
    }
}

/// The views of a list of models.
pub open spec fn models_view(models: Seq<Model>) -> Seq<ModelView> {
    models.map_values(|m: Model| m@)
}

/// The join edges of the given models, in the order in which a search
/// tries them.
pub fn build_edges(models: &Vec<Model>) -> (r: Vec<JoinStep>)
    ensures
        steps_view(r@) == graph_edges(models_view(models@)),
{
    let ghost mv = models_view(models@);
    let mut out: Vec<JoinStep> = Vec::new();
    let mut i: usize = 0;
    assert(steps_view(out@) =~= graph_edges(mv.subrange(0, 0)));
    while i < models.len()
        invariant
            i <= models.len(),
            mv == models_view(models@),
            steps_view(out@) == graph_edges(mv.subrange(0, i as int)),
        decreases models.len() - i,
    {
        let model = &models[i];
        let ghost before = steps_view(out@);
        let ghost rels = model@.relationships;
        let mut j: usize = 0;
        assert(steps_view(out@) =~= before + rels.subrange(0, 0).map_values(
            |r: RelationshipView| forward_edge(model@, r),
        ));
        while j < model.relationships.len()
            invariant
                j <= model.relationships.len(),
                rels == model@.relationships,
                steps_view(out@) == before + rels.subrange(0, j as int).map_values(
                    |r: RelationshipView| forward_edge(model@, r),
                ),
            decreases model.relationships.len() - j,
        {
            let rel = &model.relationships[j];
            let step = JoinStep {
                from_model: model.name.clone(),
                to_model: rel.name.clone(),
                from_key: rel.fk(),
                to_key: rel.pk(),
                relationship_type: rel.kind,
            };
            assert(step@ == forward_edge(model@, rels[j as int]));
            let ghost prev = steps_view(out@);
            out.push(step);
            j = j + 1;
            assert(steps_view(out@) =~= prev.push(step@));
            assert(rels.subrange(0, j as int).map_values(
                |r: RelationshipView| forward_edge(model@, r),
            ) =~= rels.subrange(0, j - 1).map_values(
                |r: RelationshipView| forward_edge(model@, r),
            ).push(forward_edge(model@, rels[j - 1])));
            assert(steps_view(out@) =~= before + rels.subrange(0, j as int).map_values(
                |r: RelationshipView| forward_edge(model@, r),
            ));
        }
        assert(rels.subrange(0, j as int) =~= rels);
        let ghost middle = steps_view(out@);
        let mut k: usize = 0;
        assert(steps_view(out@) =~= middle + rels.subrange(0, 0).map_values(
            |r: RelationshipView| reverse_edge(model@, r),
        ));
        while k < model.relationships.len()
            invariant
                k <= model.relationships.len(),
                rels == model@.relationships,
                steps_view(out@) == middle + rels.subrange(0, k as int).map_values(
                    |r: RelationshipView| reverse_edge(model@, r),
                ),
            decreases model.relationships.len() - k,
        {
            let rel = &model.relationships[k];
            let step = JoinStep {
                from_model: rel.name.clone(),
                to_model: model.name.clone(),
                from_key: rel.pk(),
                to_key: rel.fk(),
                relationship_type: rel.kind.inverted(),
            };
            assert(step@ == reverse_edge(model@, rels[k as int]));
            let ghost prev = steps_view(out@);
            out.push(step);
            k = k + 1;
            assert(steps_view(out@) =~= prev.push(step@));
            assert(rels.subrange(0, k as int).map_values(
                |r: RelationshipView| reverse_edge(model@, r),
            ) =~= rels.subrange(0, k - 1).map_values(
                |r: RelationshipView| reverse_edge(model@, r),
            ).push(reverse_edge(model@, rels[k - 1])));
            assert(steps_view(out@) =~= middle + rels.subrange(0, k as int).map_values(
                |r: RelationshipView| reverse_edge(model@, r),
            ));
        }
        assert(rels.subrange(0, k as int) =~= rels);
        i = i + 1;
        proof {
            let next = mv.subrange(0, i as int);
            assert(next.drop_last() =~= mv.subrange(0, i - 1));
            assert(next.last() == model@);
            assert(steps_view(out@) =~= before + model_edges(model@));
        }
    }
    assert(mv.subrange(0, i as int) =~= mv);
    out
}

/// The semantic graph: the models by name and the join edges between them.
#[derive(Debug)]
pub struct SemanticGraph {
    models: Vec<Model>,
    /// The join edges that the relationships induce, rebuilt on every change.
    adjacency: Vec<JoinStep>,
}

impl View for SemanticGraph {
    type V = GraphView;

    closed spec fn view(&self) -> GraphView {
        GraphView { models: models_view(self.models@) }
    }
}

impl SemanticGraph {
    /// Whether the graph is in order: no two models share a name, and the
    /// join edges are those of the models.
    pub closed spec fn wf(&self) -> bool {
        &&& self@.well_formed()
        &&& steps_view(self.adjacency@) == self@.edges()
    }

    /// A graph that is in order holds no two models of one name.
    pub proof fn lemma_distinct_names(&self)
        requires
            self.wf(),
        ensures
            self@.well_formed(),
    {
    }

    /// The graph without models.
    pub fn new() -> (r: Self)
        ensures
            r.wf(),
            r@.well_formed(),
            r@.models.len() == 0,
    {
        let g = SemanticGraph { models: Vec::new(), adjacency: Vec::new() };
        assert(g@.models =~= Seq::empty());
        assert(g@.names() =~= Seq::empty());
        assert(steps_view(g.adjacency@) =~= g@.edges());
        g
    }

    /// Puts a model into the graph, in the place of the model of the same
    /// name if there is one. A model with neither a table nor a subquery is
    /// refused and the graph stays as it was.
    pub fn add_model(&mut self, model: Model) -> (r: Result<(), SidemanticError>)
        requires
            old(self).wf(),
        ensures
            final(self).wf(),
            final(self)@.well_formed(),
            model@.table is None && model@.sql is None ==> r is Err && r->Err_0@
                == ErrorView::Validation(source_complaint(model@.name)) && final(self)@ == old(
                self,
            )@,
            !(model@.table is None && model@.sql is None) ==> r is Ok && final(self)@ == old(
                self,
            )@.insert(model@),
    {
        if model.table.is_none() && model.sql.is_none() {
            return Err(
                SidemanticError::Validation(
                    concat3("Model '", model.name.as_str(), "' must have either 'table' or 'sql' defined"),
                ),
            );
        }
        let ghost names = self@.names();
        let ghost before = self@;
        let mut i: usize = 0;
        while i < self.models.len() && !str_eq(self.models[i].name.as_str(), model.name.as_str())
            invariant
                i <= self.models.len(),
                self@ == before,
                names == self@.names(),
                self@.well_formed(),
                first_named(names, model@.name, 0) == first_named(names, model@.name, i as int),
            decreases self.models.len() - i,
        {
            assert(names[i as int] == self.models@[i as int]@.name);
            i = i + 1;
        }
        let ghost mview = model@;
        if i < self.models.len() {
            assert(names[i as int] == self.models@[i as int]@.name);
            assert(first_named(names, mview.name, 0) == Some(i as int));
            self.models.remove(i);
            self.models.insert(i, model);
            assert(self@.models =~= before.models.update(i as int, mview));
            assert(self@.names() =~= names);
        } else {
            assert(first_named(names, mview.name, 0) is None);
            proof {
                lemma_first_named(names, mview.name, 0);
            }
            self.models.push(model);
            assert(self@.models =~= before.models.push(mview));
            assert(self@.names() =~= names.push(mview.name));
        }
        self.rebuild_adjacency();
        Ok(())
    }

    /// The model of that name.
    pub fn get_model(&self, name: &str) -> (r: Option<&Model>)
        ensures
            match r {
                Some(m) => self@.get_model(name@) == Some(m@),
                None => self@.get_model(name@) is None,
            },
            r is Some <==> self@.has_model(name@),
    {
        let ghost names = self@.names();
        let mut i: usize = 0;
        while i < self.models.len()
            invariant
                i <= self.models.len(),
                names == self@.names(),
                first_named(names, name@, 0) == first_named(names, name@, i as int),
            decreases self.models.len() - i,
        {
            if str_eq(self.models[i].name.as_str(), name) {
                return Some(&self.models[i]);
            }
            i = i + 1;
        }
        None
    }

    /// All the models, in the order in which their names were first added.
    pub fn models(&self) -> (r: &Vec<Model>)
        ensures
            models_view(r@) == self@.models,
    {
        &self.models
    }

    /// Rebuilds the join edges from the relationships of the models.
    fn rebuild_adjacency(&mut self)
        ensures
            final(self)@ == old(self)@,
            steps_view(final(self).adjacency@) == final(self)@.edges(),
    {
        self.adjacency = build_edges(&self.models);
    }

    /// A shortest join path from one model to another: empty where the two
    /// are the same, an error where one of them is unknown or no path leads
    /// from the first to the second.
    pub fn find_join_path(&self, from: &str, to: &str) -> (r: Result<JoinPath, SidemanticError>)
        requires
            self.wf(),
        ensures
            path_result_view(r) == self@.join_path(from@, to@),
            self@.join_result(from@, to@, path_result_view(r)),
    {
        if str_eq(from, to) {
            let p = JoinPath { steps: Vec::new() };
            assert(p@ =~= Seq::empty());
            return Ok(p);
        }
        if self.get_model(from).is_none() {
            return Err(SidemanticError::ModelNotFound(from.to_owned()));
        }
        if self.get_model(to).is_none() {
            return Err(SidemanticError::ModelNotFound(to.to_owned()));
        }
        match shortest_walk(&self.adjacency, from, to) {
            Some(steps) => {
                assert(connected(self@.edges(), from@, to@));
                Ok(JoinPath { steps })
            },
            None => Err(SidemanticError::NoJoinPath { from: from.to_owned(), to: to.to_owned() }),
        }
    }

    /// Splits a reference `model.field` or `model.field__granularity`. The
    /// reference must hold exactly one `.`, and the model must be in the
    /// graph; the granularity starts after the first `__` of the field.
    pub fn parse_reference(&self, reference: &str) -> (r: Result<
        (String, String, Option<String>),
        SidemanticError,
    >)
        ensures
            reference_result_view(r) == self@.parse_reference(reference@),
    {
        let chars = to_chars(reference);
        let dot_pattern: Vec<char> = vec!['.'];
        assert(dot_pattern@ =~= seq!['.']);
        let dot = match find_sub(&chars, &dot_pattern, 0) {
            Some(d) => d,
            None => {
                return Err(
                    SidemanticError::InvalidReference(
                        concat3("Expected 'model.field' format, got '", reference, "'"),
                    ),
                );
            },
        };
        proof {
            lemma_find_from(chars@, dot_pattern@, 0);
        }
        assert(crate::text::matches_at(chars@, dot_pattern@, dot as int));
        assert(dot + 1 <= chars.len());
        let model_chars = slice_chars(&chars, 0, dot);
        let rest = slice_chars(&chars, dot + 1, chars.len());
        if crate::text::contains_char(&rest, '.') {
            return Err(
                SidemanticError::InvalidReference(
                    concat3("Expected 'model.field' format, got '", reference, "'"),
                ),
            );
        }
        let model_name = from_chars(&model_chars);
        if self.get_model(model_name.as_str()).is_none() {
            return Err(SidemanticError::ModelNotFound(model_name));
        }
        let under: Vec<char> = vec!['_', '_'];
        assert(under@ =~= seq!['_', '_']);
        match find_sub(&rest, &under, 0) {
            Some(p) => {
                proof {
                    lemma_find_from(rest@, under@, 0);
                }
                let field = slice_chars(&rest, 0, p);
                let gran = slice_chars(&rest, p + 2, rest.len());
                Ok((model_name, from_chars(&field), Some(from_chars(&gran))))
            },
            None => Ok((model_name, from_chars(&rest), None)),
        }
    }
}

impl Default for SemanticGraph {
    fn default() -> (r: Self)
        ensures
            r.wf(),
            r@.well_formed(),
            r@.models.len() == 0,
    {
        SemanticGraph::new()
    }
}

/// A walk read backwards, each step flipped.
pub open spec fn reversed_walk(w: Seq<JoinStepView>) -> Seq<JoinStepView> {
    Seq::new(w.len(), |i: int| w[w.len() - 1 - i].flipped())
}

/// Flipping an edge of the graph gives an edge of the graph: every
/// relationship induces an edge in each direction.
pub proof fn lemma_edges_symmetric(models: Seq<ModelView>, s: JoinStepView)
    requires
        graph_edges(models).contains(s),
    ensures
        graph_edges(models).contains(s.flipped()),
    decreases models.len(),
{
    if models.len() > 0 {
        let rest = graph_edges(models.drop_last());
        let m = models.last();
        let own = model_edges(m);
        let fw = m.relationships.map_values(|r: RelationshipView| forward_edge(m, r));
        let bw = m.relationships.map_values(|r: RelationshipView| reverse_edge(m, r));
        let all = graph_edges(models);
        let i = choose|i: int| 0 <= i < all.len() && all[i] == s;
        if i < rest.len() {
            assert(rest[i] == s);
            lemma_edges_symmetric(models.drop_last(), s);
            let j = choose|j: int| 0 <= j < rest.len() && rest[j] == s.flipped();
            assert(all[j] == s.flipped());
        } else {
            let k = i - rest.len();
            assert(own[k] == s);
            let n = m.relationships.len() as int;
            if k < n {
                assert(fw[k] == s);
                assert(bw[k] == s.flipped());
                assert(own[n + k] == s.flipped());
                assert(all[rest.len() + n + k] == s.flipped());
            } else {
                assert(bw[k - n] == s);
                let r = m.relationships[k - n];
                assert(forward_edge(m, r).flipped().flipped() == forward_edge(m, r));
                assert(fw[k - n] == s.flipped());
                assert(own[k - n] == s.flipped());
                assert(all[rest.len() + k - n] == s.flipped());
            }
        }
    }
}

/// A walk read backwards is a walk the other way.
pub proof fn lemma_reversed_walk(
    g: GraphView,
    from: Seq<char>,
    to: Seq<char>,
    w: Seq<JoinStepView>,
)
    requires
        is_walk(g.edges(), from, to, w),
    ensures
        is_walk(g.edges(), to, from, reversed_walk(w)),
        reversed_walk(w).len() == w.len(),
{
    let v = reversed_walk(w);
    if w.len() > 0 {
        assert(v[0] == w.last().flipped());
        assert(v.last() == w[0].flipped());
        assert forall|i: int| 0 <= i < v.len() implies g.edges().contains(#[trigger] v[i]) by {
            assert(g.edges().contains(w[w.len() - 1 - i]));
            lemma_edges_symmetric(g.models, w[w.len() - 1 - i]);
        }
        assert forall|i: int, j: int| 0 <= i && j == i + 1 && j < v.len() implies (
        #[trigger] v[i]).to_model == (#[trigger] v[j]).from_model by {
            let a = w.len() - 1 - j;
            let b = w.len() - 1 - i;
            assert(b == a + 1);
            assert(w[a].to_model == w[b].from_model);
        }
    }
}

/// The join path of a graph is a shortest walk along its edges, and it
/// fails exactly where a model is unknown or no walk exists.
pub proof fn lemma_join_path(g: GraphView, from: Seq<char>, to: Seq<char>)
    ensures
        g.join_result(from, to, g.join_path(from, to)),
{
    if from != to {
        lemma_search(g.edges(), from, to);
    }
}

/// Join paths are as long one way as the other: where there is a path from
/// `a` to `b`, there is one from `b` to `a`, of the same length; and the
/// path from a model to itself is empty.
pub proof fn lemma_join_path_symmetric(g: GraphView, a: Seq<char>, b: Seq<char>)
    ensures
        g.join_path(a, a) == Ok::<Seq<JoinStepView>, ErrorView>(Seq::empty()),
        g.join_path(a, b) is Ok <==> g.join_path(b, a) is Ok,
        g.join_path(a, b) is Ok ==> g.join_path(a, b)->Ok_0.len() == g.join_path(b, a)->Ok_0.len(),
{
    let there = g.join_path(a, b);
    let back = g.join_path(b, a);
    lemma_join_path(g, a, b);
    lemma_join_path(g, b, a);
    if a != b && g.has_model(a) && g.has_model(b) {
        if connected(g.edges(), a, b) {
            let p = there->Ok_0;
            lemma_reversed_walk(g, a, b, p);
            assert(connected(g.edges(), b, a));
            let q = back->Ok_0;
            lemma_reversed_walk(g, b, a, q);
            assert(is_walk(g.edges(), a, b, reversed_walk(q)));
            assert(is_walk(g.edges(), b, a, reversed_walk(p)));
        } else {
            if connected(g.edges(), b, a) {
                let q = choose|q: Seq<JoinStepView>| is_walk(g.edges(), b, a, q);
                lemma_reversed_walk(g, b, a, q);
            }
        }
    }
}

} // verus!
