//! The errors of the semantic layer.

use vstd::prelude::*;
use vstd::string::*;
use crate::text::concat2;
use crate::text::concat4;

verus! {

/// Everything that can go wrong while building a graph or rewriting a query.
#[derive(Debug)]
pub enum SidemanticError {
    ModelNotFound(String),
    DimensionNotFound { model: String, dimension: String },
    MetricNotFound { model: String, metric: String },
    NoJoinPath { from: String, to: String },
    SqlParse(String),
    InvalidReference(String),
    Validation(String),
}

/// The mathematical content of a [`SidemanticError`].
pub enum ErrorView {
    ModelNotFound(Seq<char>),
    DimensionNotFound { model: Seq<char>, dimension: Seq<char> },
    MetricNotFound { model: Seq<char>, metric: Seq<char> },
    NoJoinPath { from: Seq<char>, to: Seq<char> },
    SqlParse(Seq<char>),
    InvalidReference(Seq<char>),
    Validation(Seq<char>),
}

impl View for SidemanticError {
    type V = ErrorView;

    open spec fn view(&self) -> ErrorView {
        match *self {
            SidemanticError::ModelNotFound(n) => ErrorView::ModelNotFound(n@),
            SidemanticError::DimensionNotFound { model, dimension } => ErrorView::DimensionNotFound {
                model: model@,
                dimension: dimension@,
            },
            SidemanticError::MetricNotFound { model, metric } => ErrorView::MetricNotFound {
                model: model@,
                metric: metric@,
            },
            SidemanticError::NoJoinPath { from, to } => ErrorView::NoJoinPath { from: from@, to: to@ },
            SidemanticError::SqlParse(m) => ErrorView::SqlParse(m@),
            SidemanticError::InvalidReference(r) => ErrorView::InvalidReference(r@),
            SidemanticError::Validation(m) => ErrorView::Validation(m@),
        }
    }
}

impl ErrorView {
    /// The text shown for an error: a fixed prefix for each kind, then the
    /// names it carries.
    pub open spec fn message(self) -> Seq<char> {
        match self {
            ErrorView::ModelNotFound(n) => "Model not found: "@ + n,
            ErrorView::DimensionNotFound { model, dimension } => "Dimension not found: "@ + model
                + "."@ + dimension,
            ErrorView::MetricNotFound { model, metric } => "Metric not found: "@ + model + "."@
                + metric,
            ErrorView::NoJoinPath { from, to } => "No join path found between "@ + from + " and "@
                + to,
            ErrorView::SqlParse(m) => "SQL parse error: "@ + m,
            ErrorView::InvalidReference(r) => "Invalid reference: "@ + r,
            ErrorView::Validation(m) => "Validation error: "@ + m,
        }
    }
}

impl SidemanticError {
    /// Renders the error as text.
    pub fn message(&self) -> (out: String)
        ensures
            out@ == self@.message(),
    {
        match self {
            SidemanticError::ModelNotFound(n) => concat2("Model not found: ", n.as_str()),
            SidemanticError::DimensionNotFound { model, dimension } => concat4(
                "Dimension not found: ",
                model.as_str(),
                ".",
                dimension.as_str(),
            ),
            SidemanticError::MetricNotFound { model, metric } => concat4(
                "Metric not found: ",
                model.as_str(),
                ".",
                metric.as_str(),
            ),
            SidemanticError::NoJoinPath { from, to } => concat4(
                "No join path found between ",
                from.as_str(),
                " and ",
                to.as_str(),
            ),
            SidemanticError::SqlParse(m) => concat2("SQL parse error: ", m.as_str()),
            SidemanticError::InvalidReference(r) => concat2("Invalid reference: ", r.as_str()),
            SidemanticError::Validation(m) => concat2("Validation error: ", m.as_str()),
        }
    }
}


/// `f` applied to each element of `s` from `i` on, up to the first error.
pub open spec fn try_map_from<A, B>(
    s: Seq<A>,
    f: spec_fn(A) -> Result<B, ErrorView>,
    i: int,
) -> Result<Seq<B>, ErrorView>
    decreases s.len() - i,
{
    if i < 0 || i >= s.len() {
        Ok(Seq::empty())
    } else {
        match f(s[i]) {
            Err(e) => Err(e),
            Ok(b) => match try_map_from(s, f, i + 1) {
                Err(e) => Err(e),
                Ok(rest) => Ok(seq![b] + rest),
            },
        }
    }
}

/// The results so far in front of what is still to come.
pub open spec fn prepend<B>(prefix: Seq<B>, r: Result<Seq<B>, ErrorView>) -> Result<
    Seq<B>,
    ErrorView,
> {
    match r {
        Ok(rest) => Ok(prefix + rest),
        Err(e) => Err(e),
    }
}

/// One step of a fallible map: an error ends it, a result joins the ones
/// before it.
pub proof fn lemma_try_map_step<A, B>(
    s: Seq<A>,
    f: spec_fn(A) -> Result<B, ErrorView>,
    i: int,
    prefix: Seq<B>,
)
    requires
        0 <= i < s.len(),
    ensures
        f(s[i]) is Err ==> prepend(prefix, try_map_from(s, f, i)) == Err::<Seq<B>, ErrorView>(
            f(s[i])->Err_0,
        ),
        f(s[i]) is Ok ==> prepend(prefix, try_map_from(s, f, i)) == prepend(
            prefix.push(f(s[i])->Ok_0),
            try_map_from(s, f, i + 1),
        ),
{
    if f(s[i]) is Ok {
        let b = f(s[i])->Ok_0;
        match try_map_from(s, f, i + 1) {
            Ok(rest) => {
                assert(prefix + (seq![b] + rest) =~= prefix.push(b) + rest);
            },
            Err(e) => {},
        }
    }
}

/// At the end of a fallible map the results so far are the result.
pub proof fn lemma_try_map_end<A, B>(
    s: Seq<A>,
    f: spec_fn(A) -> Result<B, ErrorView>,
    i: int,
    prefix: Seq<B>,
)
    requires
        i >= s.len(),
    ensures
        prepend(prefix, try_map_from(s, f, i)) == Ok::<Seq<B>, ErrorView>(prefix),
{
    assert(prefix + Seq::<B>::empty() =~= prefix);
}

/// At its start a fallible map has no results yet.
pub proof fn lemma_try_map_start<A, B>(s: Seq<A>, f: spec_fn(A) -> Result<B, ErrorView>)
    ensures
        prepend(Seq::<B>::empty(), try_map_from(s, f, 0)) == try_map_from(s, f, 0),
{
    match try_map_from(s, f, 0) {
        Ok(rest) => {
            assert(Seq::<B>::empty() + rest =~= rest);
        },
        Err(e) => {},
    }
}

/// Where a fallible map from `i` on succeeds, it gives one result for
/// each element, in their order.
pub proof fn lemma_try_map_each<A, B>(s: Seq<A>, f: spec_fn(A) -> Result<B, ErrorView>, i: int)
    requires
        0 <= i <= s.len(),
        try_map_from(s, f, i) is Ok,
    ensures
        try_map_from(s, f, i)->Ok_0.len() == s.len() - i,
        forall|j: int|
            i <= j < s.len() ==> f(#[trigger] s[j]) is Ok && try_map_from(s, f, i)->Ok_0[j - i]
                == f(s[j])->Ok_0,
    decreases s.len() - i,
{
    if i < s.len() {
        lemma_try_map_each(s, f, i + 1);
        let rest = try_map_from(s, f, i + 1)->Ok_0;
        let all = try_map_from(s, f, i)->Ok_0;
        assert(all == seq![f(s[i])->Ok_0] + rest);
        assert forall|j: int| i <= j < s.len() implies f(#[trigger] s[j]) is Ok && all[j - i] == f(
            s[j],
        )->Ok_0 by {
            if j > i {
                assert(all[j - i] == rest[j - (i + 1)]);
            }
        }
    }
}

/// A fallible map over one sequence after another, from a place in the
/// second on, is the map over the second from that place on.
proof fn lemma_try_map_second<A, B>(
    a: Seq<A>,
    b: Seq<A>,
    f: spec_fn(A) -> Result<B, ErrorView>,
    j: int,
)
    requires
        0 <= j <= b.len(),
    ensures
        try_map_from(a + b, f, a.len() + j) == try_map_from(b, f, j),
    decreases b.len() - j,
{
    if j < b.len() {
        assert((a + b)[a.len() + j] == b[j]);
        lemma_try_map_second(a, b, f, j + 1);
    }
}

/// A fallible map over one sequence after another, from a place in the
/// first on: the first error of the first, or else its results in front
/// of the map over the second.
proof fn lemma_try_map_first<A, B>(
    a: Seq<A>,
    b: Seq<A>,
    f: spec_fn(A) -> Result<B, ErrorView>,
    i: int,
)
    requires
        0 <= i <= a.len(),
    ensures
        try_map_from(a + b, f, i) == match try_map_from(a, f, i) {
            Err(e) => Err(e),
            Ok(x) => prepend(x, try_map_from(b, f, 0)),
        },
    decreases a.len() - i,
{
    if i < a.len() {
        assert((a + b)[i] == a[i]);
        lemma_try_map_first(a, b, f, i + 1);
        match f(a[i]) {
            Err(e) => {},
            Ok(first) => match try_map_from(a, f, i + 1) {
                Err(e) => {},
                Ok(x) => match try_map_from(b, f, 0) {
                    Err(e) => {},
                    Ok(y) => {
                        assert(seq![first] + (x + y) =~= (seq![first] + x) + y);
                    },
                },
            },
        }
    } else {
        lemma_try_map_second(a, b, f, 0);
        match try_map_from(b, f, 0) {
            Err(e) => {},
            Ok(y) => {
                assert(Seq::<B>::empty() + y =~= y);
            },
        }
    }
}

/// A fallible map over one sequence after another is the map over the
/// first and then the map over the second: the first error of the two, or
/// else the results of the first in front of those of the second.
pub proof fn lemma_try_map_concat<A, B>(a: Seq<A>, b: Seq<A>, f: spec_fn(A) -> Result<B, ErrorView>)
    ensures
        try_map_from(a + b, f, 0) == match try_map_from(a, f, 0) {
            Err(e) => Err(e),
            Ok(x) => prepend(x, try_map_from(b, f, 0)),
        },
{
    lemma_try_map_first(a, b, f, 0);
}

} // verus!
