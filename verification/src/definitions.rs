//! Texts of model definitions: telling the definitions of a file apart,
//! reading the model that a definition is meant for, and telling whether
//! a query speaks of a model at all.

use vstd::prelude::*;
use vstd::string::*;
use crate::graph::SemanticGraph;
use crate::model::Dimension;
use crate::model::DimensionView;
use crate::model::Metric;
use crate::model::MetricView;
use crate::model::Model;
use crate::model::ModelView;
use crate::segment::Segment;
use crate::segment::SegmentView;
use crate::text::str_eq;
use crate::text::trim_end;
use crate::text::contains_sub;
use crate::text::find_from;
use crate::text::find_sub;
use crate::text::from_chars;
use crate::text::is_digit;
use crate::text::is_letter;
use crate::text::is_space;
use crate::text::lower;
use crate::text::lower_chars;
use crate::text::matches_at;
use crate::text::slice_chars;
use crate::text::to_chars;
use crate::text::trim;
use crate::text::trim_start;
use crate::text::upper;
use crate::text::upper_chars;
use crate::text::views;

verus! {

/// Whether the word `MODEL` at place `p` of a text opens a definition: no
/// letter or digit stands before it, and a blank, a tab, a line break or
/// `(` follows it.
pub open spec fn opens_definition(s: Seq<char>, p: int) -> bool {
    &&& 0 <= p
    &&& p + 5 < s.len()
    &&& (p == 0 || !(is_letter(s[p - 1]) || is_digit(s[p - 1])))
    &&& (s[p + 5] == ' ' || s[p + 5] == '(' || s[p + 5] == '\t' || s[p + 5] == '\n')
}

/// The definitions of a text, from the search place `search` on, where
/// the definition in hand starts at `start`. Every `MODEL`, in any case,
/// that opens a definition ends the one in hand, which is kept unless it
/// starts at the start of the text; what is left at the end is the last
/// definition.
pub open spec fn definitions_from(s: Seq<char>, search: int, start: int, acc: Seq<Seq<char>>) -> Seq<
    Seq<char>,
>
    decreases s.len() + 1 - search,
{
    match find_from(upper(s), "MODEL"@, search) {
        Some(p) => if search <= p <= s.len() {
            if opens_definition(s, p) {
                if 0 < start < p {
                    definitions_from(s, p + 1, p, acc.push(s.subrange(start, p)))
                } else {
                    definitions_from(s, p + 1, p, acc)
                }
            } else {
                definitions_from(s, p + 1, start, acc)
            }
        } else {
            acc
        },
        None => if 0 <= start < s.len() {
            acc.push(s.subrange(start, s.len() as int))
        } else {
            acc
        },
    }
}

/// The definitions of a text.
pub open spec fn definitions(s: Seq<char>) -> Seq<Seq<char>> {
    definitions_from(s, 0, 0, Seq::empty())
}

/// Splits the text of a file into its definitions.
pub fn split_definitions(content: &str) -> (r: Vec<String>)
    ensures
        views(r@) == definitions(content@),
{
    let chars = to_chars(content);
    let up = upper_chars(&chars);
    let word = to_chars("MODEL");
    proof {
        reveal_strlit("MODEL");
    }
    assert(word@.len() == 5);
    let mut out: Vec<String> = Vec::new();
    assert(views(out@) =~= Seq::empty());
    let mut start: usize = 0;
    let mut search: usize = 0;
    loop
        invariant
            chars@ == content@,
            up@ == upper(content@),
            up@.len() == chars@.len(),
            word@ == "MODEL"@,
            word@.len() == 5,
            start <= chars.len(),
            search <= chars.len() + 1,
            definitions(content@) == definitions_from(
                content@,
                search as int,
                start as int,
                views(out@),
            ),
        decreases chars.len() + 1 - search,
    {
        let ghost prev = views(out@);
        if search > chars.len() {
            proof {
                crate::text::lemma_find_from(up@, word@, search as int);
                assert(find_from(up@, word@, search as int) is None);
            }
            if start < chars.len() {
                let part = slice_chars(&chars, start, chars.len());
                out.push(from_chars(&part));
                assert(views(out@) =~= prev.push(part@));
            }
            return out;
        }
        match find_sub(&up, &word, search) {
            None => {
                if start < chars.len() {
                    let part = slice_chars(&chars, start, chars.len());
                    out.push(from_chars(&part));
                    assert(views(out@) =~= prev.push(part@));
                }
                return out;
            },
            Some(p) => {
                proof {
                    crate::text::lemma_find_from(up@, word@, search as int);
                }
                assert(matches_at(up@, word@, p as int));
                assert(p + 5 <= chars.len());
                let before_ok = p == 0 || !is_word(chars[p - 1]);
                let after_ok = p + 5 < chars.len() && (chars[p + 5] == ' ' || chars[p + 5] == '('
                    || chars[p + 5] == '\t' || chars[p + 5] == '\n');
                if before_ok && after_ok {
                    if start < p && start > 0 {
                        let part = slice_chars(&chars, start, p);
                        out.push(from_chars(&part));
                        assert(views(out@) =~= prev.push(part@));
                    }
                    start = p;
                }
                search = p + 1;
            },
        }
    }
}

/// Whether a character is an ASCII letter or digit.
fn is_word(c: char) -> (r: bool)
    ensures
        r == (is_letter(c) || is_digit(c)),
{
    ('a' <= c && c <= 'z') || ('A' <= c && c <= 'Z') || ('0' <= c && c <= '9')
}

/// Whether a query speaks of the model `name`: in lower case it holds
/// `from name`, `join name` or `name.`.
pub open spec fn speaks_of(sql: Seq<char>, name: Seq<char>) -> bool {
    contains_sub(lower(sql), "from "@ + lower(name)) || contains_sub(
        lower(sql),
        "join "@ + lower(name),
    ) || contains_sub(lower(sql), lower(name) + "."@)
}

/// Whether a query speaks of one of the models from `i` on.
pub open spec fn speaks_of_any(sql: Seq<char>, models: Seq<ModelView>, i: int) -> bool
    decreases models.len() - i,
{
    if i < 0 || i >= models.len() {
        false
    } else {
        speaks_of(sql, models[i].name) || speaks_of_any(sql, models, i + 1)
    }
}

/// Whether a query speaks of a model of the graph.
pub fn query_references_models(sql: &str, graph: &SemanticGraph) -> (r: bool)
    ensures
        r == speaks_of_any(sql@, graph@.models, 0),
{
    let text = lower_chars(&to_chars(sql));
    let from_word = to_chars("from ");
    let join_word = to_chars("join ");
    let models = graph.models();
    let mut i: usize = 0;
    while i < models.len()
        invariant
            i <= models.len(),
            text@ == lower(sql@),
            from_word@ == "from "@,
            join_word@ == "join "@,
            crate::graph::models_view(models@) == graph@.models,
            speaks_of_any(sql@, graph@.models, 0) == speaks_of_any(sql@, graph@.models, i as int),
        decreases models.len() - i,
    {
        assert(graph@.models[i as int] == models@[i as int]@);
        let name = lower_chars(&to_chars(models[i].name.as_str()));
        let mut after_from = to_chars("from ");
        crate::text::extend_chars(&mut after_from, &name);
        let mut after_join = to_chars("join ");
        crate::text::extend_chars(&mut after_join, &name);
        let mut qualifier = lower_chars(&to_chars(models[i].name.as_str()));
        qualifier.push('.');
        proof {
            reveal_strlit(".");
            assert(qualifier@ =~= lower(models@[i as int]@.name) + "."@);
        }
        if find_sub(&text, &after_from, 0).is_some() || find_sub(&text, &after_join, 0).is_some()
            || find_sub(&text, &qualifier, 0).is_some() {
            return true;
        }
        i = i + 1;
    }
    false
}

/// The first place at or after `i` that holds ASCII white space or `(`.
pub open spec fn token_end(s: Seq<char>, i: int) -> int
    decreases s.len() - i,
{
    if 0 <= i < s.len() && !(is_space(s[i]) || s[i] == '(') {
        token_end(s, i + 1)
    } else {
        i
    }
}

/// The keyword that a definition starts with, in any case: `METRIC`,
/// `DIMENSION` or `SEGMENT`.
pub open spec fn definition_keyword(s: Seq<char>) -> Option<Seq<char>> {
    if matches_at(upper(s), "METRIC"@, 0) {
        Some("METRIC"@)
    } else if matches_at(upper(s), "DIMENSION"@, 0) {
        Some("DIMENSION"@)
    } else if matches_at(upper(s), "SEGMENT"@, 0) {
        Some("SEGMENT"@)
    } else {
        None
    }
}

/// A definition `KEYWORD model.field (...)` or `KEYWORD model.field AS
/// ...` taken apart: the model, and the definition without it, as
/// `KEYWORD (name field, ...` or `KEYWORD field AS ...`. Any other text
/// names no model and stays as it is.
pub open spec fn model_prefix(s: Seq<char>) -> (Option<Seq<char>>, Seq<char>) {
    match definition_keyword(s) {
        None => (None, s),
        Some(keyword) => if keyword.len() <= s.len() {
            let rest = trim_start(s.subrange(keyword.len() as int, s.len() as int));
            let end = token_end(rest, 0);
            if 0 <= end <= rest.len() {
                let token = rest.subrange(0, end);
                let after = trim_start(rest.subrange(end, rest.len() as int));
                match find_from(token, seq!['.'], 0) {
                    Some(dot) => if 0 <= dot < token.len() {
                        let model = trim(token.subrange(0, dot));
                        let field = trim(token.subrange(dot + 1, token.len() as int));
                        if after.len() > 0 && after[0] == '(' {
                            (
                                Some(model),
                                keyword + " (name "@ + field + ", "@ + trim_start(
                                    after.subrange(1, after.len() as int),
                                ),
                            )
                        } else if matches_at(upper(after), "AS "@, 0) {
                            (
                                Some(model),
                                keyword + " "@ + field + " AS "@ + trim_start(
                                    after.subrange(2, after.len() as int),
                                ),
                            )
                        } else {
                            (None, s)
                        }
                    } else {
                        (None, s)
                    },
                    None => (None, s),
                }
            } else {
                (None, s)
            }
        } else {
            (None, s)
        },
    }
}

/// The views of a model and a definition.
pub open spec fn prefix_view(r: (Option<String>, String)) -> (Option<Seq<char>>, Seq<char>) {
    (crate::segment::opt_view(r.0), r.1@)
}

/// The first place at or after `i` that holds ASCII white space or `(`.
fn skip_token(s: &Vec<char>, i: usize) -> (r: usize)
    requires
        i <= s.len(),
    ensures
        r == token_end(s@, i as int),
        i <= r <= s.len(),
{
    let mut k: usize = i;
    while k < s.len() && !(crate::text::is_space_char(s[k]) || s[k] == '(')
        invariant
            i <= k <= s.len(),
            token_end(s@, i as int) == token_end(s@, k as int),
        decreases s.len() - k,
    {
        k = k + 1;
    }
    k
}

/// Takes the model out of a definition that names one.
pub fn extract_model_prefix(sql: &str) -> (r: (Option<String>, String))
    ensures
        prefix_view(r) == model_prefix(sql@),
{
    let chars = to_chars(sql);
    let up = upper_chars(&chars);
    let metric = to_chars("METRIC");
    let dimension = to_chars("DIMENSION");
    let segment = to_chars("SEGMENT");
    let keyword = if crate::text::starts_at(&up, &metric, 0) {
        metric
    } else if crate::text::starts_at(&up, &dimension, 0) {
        dimension
    } else if crate::text::starts_at(&up, &segment, 0) {
        segment
    } else {
        return (None, sql.to_owned());
    };
    assert(definition_keyword(sql@) == Some(keyword@));
    assert(matches_at(up@, keyword@, 0));
    assert(keyword@.len() <= chars@.len());
    let tail = slice_chars(&chars, keyword.len(), chars.len());
    let rest = crate::text::chars_from(&tail, crate::text::skip_spaces(&tail, 0));
    let end = skip_token(&rest, 0);
    let token = slice_chars(&rest, 0, end);
    let remainder = slice_chars(&rest, end, rest.len());
    let after = crate::text::chars_from(&remainder, crate::text::skip_spaces(&remainder, 0));
    let dot_word: Vec<char> = vec!['.'];
    assert(dot_word@ =~= seq!['.']);
    let dot = match find_sub(&token, &dot_word, 0) {
        Some(d) => d,
        None => {
            return (None, sql.to_owned());
        },
    };
    proof {
        crate::text::lemma_find_from(token@, dot_word@, 0);
    }
    assert(matches_at(token@, dot_word@, dot as int));
    assert(dot + 1 <= token.len());
    let model = crate::text::trim_chars(&slice_chars(&token, 0, dot));
    let field = crate::text::trim_chars(&slice_chars(&token, dot + 1, token.len()));
    let after_up = upper_chars(&after);
    let as_word = to_chars("AS ");
    if after.len() > 0 && after[0] == '(' {
        let inside = slice_chars(&after, 1, after.len());
        let inner = crate::text::chars_from(&inside, crate::text::skip_spaces(&inside, 0));
        let mut out = from_chars(&keyword);
        out.append(" (name ");
        out.append(from_chars(&field).as_str());
        out.append(", ");
        out.append(from_chars(&inner).as_str());
        (Some(from_chars(&model)), out)
    } else if crate::text::starts_at(&after_up, &as_word, 0) {
        assert(matches_at(after_up@, as_word@, 0));
        proof {
            reveal_strlit("AS ");
        }
        assert(as_word@.len() == 3);
        let behind = slice_chars(&after, 2, after.len());
        let value = crate::text::chars_from(&behind, crate::text::skip_spaces(&behind, 0));
        let mut out = from_chars(&keyword);
        out.append(" ");
        out.append(from_chars(&field).as_str());
        out.append(" AS ");
        out.append(from_chars(&value).as_str());
        (Some(from_chars(&model)), out)
    } else {
        (None, sql.to_owned())
    }
}


/// A line without the carriage return that ends it, if one does.
pub open spec fn without_return(line: Seq<char>) -> Seq<char> {
    if line.len() > 0 && line.last() == '\r' {
        line.drop_last()
    } else {
        line
    }
}

/// The lines of a text from `i` on, where the line in hand starts at
/// `start`. A line ends at a line feed; a carriage return before the line
/// feed belongs to the line ending. What follows the last line feed is a
/// line of its own unless it is empty.
pub open spec fn lines_from(s: Seq<char>, start: int, i: int, acc: Seq<Seq<char>>) -> Seq<Seq<char>>
    decreases s.len() - i,
{
    if i < 0 || start < 0 || start > i {
        acc
    } else if i >= s.len() {
        if start < s.len() {
            acc.push(s.subrange(start, s.len() as int))
        } else {
            acc
        }
    } else if s[i] == '\n' {
        lines_from(s, i + 1, i + 1, acc.push(without_return(s.subrange(start, i))))
    } else {
        lines_from(s, start, i + 1, acc)
    }
}

/// The lines of a text.
pub open spec fn lines(s: Seq<char>) -> Seq<Seq<char>> {
    lines_from(s, 0, 0, Seq::empty())
}

/// The lines of a text.
pub fn split_lines(content: &Vec<char>) -> (r: Vec<Vec<char>>)
    ensures
        r@.map_values(|l: Vec<char>| l@) == lines(content@),
{
    let mut out: Vec<Vec<char>> = Vec::new();
    assert(out@.map_values(|l: Vec<char>| l@) =~= Seq::empty());
    let mut start: usize = 0;
    let mut i: usize = 0;
    while i < content.len()
        invariant
            start <= i <= content.len(),
            lines(content@) == lines_from(
                content@,
                start as int,
                i as int,
                out@.map_values(|l: Vec<char>| l@),
            ),
        decreases content.len() - i,
    {
        if content[i] == '\n' {
            let end = if i > start && content[i - 1] == '\r' {
                i - 1
            } else {
                i
            };
            let line = slice_chars(content, start, end);
            proof {
                let whole = content@.subrange(start as int, i as int);
                if i > start {
                    assert(whole.last() == content@[i - 1]);
                    assert(whole.drop_last() =~= content@.subrange(start as int, i - 1));
                }
                assert(line@ == without_return(whole));
            }
            let ghost prev = out@.map_values(|l: Vec<char>| l@);
            out.push(line);
            assert(out@.map_values(|l: Vec<char>| l@) =~= prev.push(line@));
            start = i + 1;
        }
        i = i + 1;
    }
    if start < content.len() {
        let line = slice_chars(content, start, content.len());
        let ghost prev = out@.map_values(|l: Vec<char>| l@);
        out.push(line);
        assert(out@.map_values(|l: Vec<char>| l@) =~= prev.push(line@));
    }
    out
}

/// Whether a line opens the definition of a model: without the white
/// space around it, it starts with `MODEL` in any case.
pub open spec fn is_model_line(line: Seq<char>) -> bool {
    matches_at(upper(trim(line)), "MODEL"@, 0)
}

/// Whether a line names the model: in lower case it holds `name `
/// followed by the name of the model.
pub open spec fn names_model(line: Seq<char>, model: Seq<char>) -> bool {
    contains_sub(lower(line), lower("name "@ + model))
}

/// The lines from `i` on that stay when the definition of `model` is
/// taken out, each with a line feed behind it, added to `acc`. The line
/// that opens the definition of `model` goes, and so does every line
/// after it up to the line that opens another definition.
pub open spec fn kept_from(
    all: Seq<Seq<char>>,
    model: Seq<char>,
    i: int,
    skipping: bool,
    acc: Seq<char>,
) -> Seq<char>
    decreases all.len() - i,
{
    if i < 0 || i >= all.len() {
        acc
    } else if is_model_line(all[i]) {
        if names_model(all[i], model) {
            kept_from(all, model, i + 1, true, acc)
        } else {
            kept_from(all, model, i + 1, false, acc + all[i] + seq!['\n'])
        }
    } else if skipping {
        kept_from(all, model, i + 1, true, acc)
    } else {
        kept_from(all, model, i + 1, false, acc + all[i] + seq!['\n'])
    }
}

/// The text of a file of definitions without the definition of `model`,
/// and without white space at its end.
pub open spec fn without_model(content: Seq<char>, model: Seq<char>) -> Seq<char> {
    trim_end(kept_from(lines(content), model, 0, false, Seq::empty()))
}

/// Takes the definition of a model out of the text of a file of definitions.
pub fn remove_model(content: &str, model_name: &str) -> (r: String)
    ensures
        r@ == without_model(content@, model_name@),
{
    let chars = to_chars(content);
    let all = split_lines(&chars);
    let ghost lv = all@.map_values(|l: Vec<char>| l@);
    let word = to_chars("MODEL");
    let pattern = lower_chars(&to_chars(crate::text::concat2("name ", model_name).as_str()));
    let mut out: Vec<char> = Vec::new();
    let mut skipping = false;
    let mut i: usize = 0;
    while i < all.len()
        invariant
            i <= all.len(),
            lv == all@.map_values(|l: Vec<char>| l@),
            lv == lines(content@),
            word@ == "MODEL"@,
            pattern@ == lower("name "@ + model_name@),
            kept_from(lv, model_name@, 0, false, Seq::empty()) == kept_from(
                lv,
                model_name@,
                i as int,
                skipping,
                out@,
            ),
        decreases all.len() - i,
    {
        let line = &all[i];
        assert(lv[i as int] == line@);
        let opens = crate::text::starts_at(&upper_chars(&crate::text::trim_chars(line)), &word, 0);
        let ghost prev = out@;
        if opens {
            if find_sub(&lower_chars(line), &pattern, 0).is_some() {
                skipping = true;
            } else {
                skipping = false;
                crate::text::extend_chars(&mut out, line);
                out.push('\n');
                assert(out@ =~= prev + line@ + seq!['\n']);
            }
        } else if !skipping {
            crate::text::extend_chars(&mut out, line);
            out.push('\n');
            assert(out@ =~= prev + line@ + seq!['\n']);
        }
        i = i + 1;
    }
    crate::text::trim_end_str(from_chars(&out).as_str())
}

/// The metrics without those named `name`.
pub open spec fn metrics_without(metrics: Seq<MetricView>, name: Seq<char>) -> Seq<MetricView> {
    metrics.filter(|m: MetricView| m.name != name)
}

/// The dimensions without those named `name`.
pub open spec fn dimensions_without(dimensions: Seq<DimensionView>, name: Seq<char>) -> Seq<
    DimensionView,
> {
    dimensions.filter(|d: DimensionView| d.name != name)
}

/// The segments without those named `name`.
pub open spec fn segments_without(segments: Seq<SegmentView>, name: Seq<char>) -> Seq<SegmentView> {
    segments.filter(|s: SegmentView| s.name != name)
}

/// The metrics with those of `added` from `i` on put in, one after the
/// other: each goes to the end, after those of its name have been taken
/// out where `replace` says so.
pub open spec fn with_metrics_from(
    metrics: Seq<MetricView>,
    added: Seq<MetricView>,
    i: int,
    replace: bool,
) -> Seq<MetricView>
    decreases added.len() - i,
{
    if i < 0 || i >= added.len() {
        metrics
    } else if replace {
        with_metrics_from(
            metrics_without(metrics, added[i].name).push(added[i]),
            added,
            i + 1,
            replace,
        )
    } else {
        with_metrics_from(metrics.push(added[i]), added, i + 1, replace)
    }
}

/// The dimensions with those of `added` from `i` on put in.
pub open spec fn with_dimensions_from(
    dimensions: Seq<DimensionView>,
    added: Seq<DimensionView>,
    i: int,
    replace: bool,
) -> Seq<DimensionView>
    decreases added.len() - i,
{
    if i < 0 || i >= added.len() {
        dimensions
    } else if replace {
        with_dimensions_from(
            dimensions_without(dimensions, added[i].name).push(added[i]),
            added,
            i + 1,
            replace,
        )
    } else {
        with_dimensions_from(dimensions.push(added[i]), added, i + 1, replace)
    }
}

/// The segments with those of `added` from `i` on put in.
pub open spec fn with_segments_from(
    segments: Seq<SegmentView>,
    added: Seq<SegmentView>,
    i: int,
    replace: bool,
) -> Seq<SegmentView>
    decreases added.len() - i,
{
    if i < 0 || i >= added.len() {
        segments
    } else if replace {
        with_segments_from(
            segments_without(segments, added[i].name).push(added[i]),
            added,
            i + 1,
            replace,
        )
    } else {
        with_segments_from(segments.push(added[i]), added, i + 1, replace)
    }
}

/// The model with what a definition adds to it: the metrics of `parsed`
/// for a definition that starts with `METRIC`, in any case, its
/// dimensions for `DIMENSION`, its segments for `SEGMENT`, and nothing
/// for any other.
pub open spec fn with_definition(
    model: ModelView,
    parsed: ModelView,
    definition: Seq<char>,
    replace: bool,
) -> ModelView {
    match definition_keyword(trim(definition)) {
        None => model,
        Some(k) => if k == "METRIC"@ {
            ModelView {
                metrics: with_metrics_from(model.metrics, parsed.metrics, 0, replace),
                ..model
            }
        } else if k == "DIMENSION"@ {
            ModelView {
                dimensions: with_dimensions_from(model.dimensions, parsed.dimensions, 0, replace),
                ..model
            }
        } else {
            ModelView {
                segments: with_segments_from(model.segments, parsed.segments, 0, replace),
                ..model
            }
        },
    }
}

/// The metrics without those named `name`.
fn remove_metrics(metrics: Vec<Metric>, name: &str) -> (r: Vec<Metric>)
    ensures
        r@.map_values(|m: Metric| m@) == metrics_without(metrics@.map_values(|m: Metric| m@), name@),
{
    let ghost all = metrics@.map_values(|m: Metric| m@);
    let mut out: Vec<Metric> = Vec::new();
    let mut i: usize = 0;
    assert(out@.map_values(|m: Metric| m@) =~= metrics_without(all.subrange(0, 0), name@));
    while i < metrics.len()
        invariant
            i <= metrics.len(),
            all == metrics@.map_values(|m: Metric| m@),
            out@.map_values(|m: Metric| m@) == metrics_without(all.subrange(0, i as int), name@),
        decreases metrics.len() - i,
    {
        proof {
            assert(all.subrange(0, i + 1).drop_last() =~= all.subrange(0, i as int));
            assert(all.subrange(0, i + 1).last() == metrics@[i as int]@);
            reveal(Seq::filter);
        }
        if !str_eq(metrics[i].name.as_str(), name) {
            let ghost prev = out@.map_values(|m: Metric| m@);
            out.push(metrics[i].clone());
            assert(out@.map_values(|m: Metric| m@) =~= prev.push(metrics@[i as int]@));
        }
        i = i + 1;
    }
    assert(all.subrange(0, i as int) =~= all);
    out
}

/// The dimensions without those named `name`.
fn remove_dimensions(dimensions: Vec<Dimension>, name: &str) -> (r: Vec<Dimension>)
    ensures
        r@.map_values(|d: Dimension| d@) == dimensions_without(
            dimensions@.map_values(|d: Dimension| d@),
            name@,
        ),
{
    let ghost all = dimensions@.map_values(|d: Dimension| d@);
    let mut out: Vec<Dimension> = Vec::new();
    let mut i: usize = 0;
    assert(out@.map_values(|d: Dimension| d@) =~= dimensions_without(all.subrange(0, 0), name@));
    while i < dimensions.len()
        invariant
            i <= dimensions.len(),
            all == dimensions@.map_values(|d: Dimension| d@),
            out@.map_values(|d: Dimension| d@) == dimensions_without(
                all.subrange(0, i as int),
                name@,
            ),
        decreases dimensions.len() - i,
    {
        proof {
            assert(all.subrange(0, i + 1).drop_last() =~= all.subrange(0, i as int));
            assert(all.subrange(0, i + 1).last() == dimensions@[i as int]@);
            reveal(Seq::filter);
        }
        if !str_eq(dimensions[i].name.as_str(), name) {
            let ghost prev = out@.map_values(|d: Dimension| d@);
            out.push(dimensions[i].clone());
            assert(out@.map_values(|d: Dimension| d@) =~= prev.push(dimensions@[i as int]@));
        }
        i = i + 1;
    }
    assert(all.subrange(0, i as int) =~= all);
    out
}

/// The segments without those named `name`.
fn remove_segments(segments: Vec<Segment>, name: &str) -> (r: Vec<Segment>)
    ensures
        r@.map_values(|s: Segment| s@) == segments_without(
            segments@.map_values(|s: Segment| s@),
            name@,
        ),
{
    let ghost all = segments@.map_values(|s: Segment| s@);
    let mut out: Vec<Segment> = Vec::new();
    let mut i: usize = 0;
    assert(out@.map_values(|s: Segment| s@) =~= segments_without(all.subrange(0, 0), name@));
    while i < segments.len()
        invariant
            i <= segments.len(),
            all == segments@.map_values(|s: Segment| s@),
            out@.map_values(|s: Segment| s@) == segments_without(all.subrange(0, i as int), name@),
        decreases segments.len() - i,
    {
        proof {
            assert(all.subrange(0, i + 1).drop_last() =~= all.subrange(0, i as int));
            assert(all.subrange(0, i + 1).last() == segments@[i as int]@);
            reveal(Seq::filter);
        }
        if !str_eq(segments[i].name.as_str(), name) {
            let ghost prev = out@.map_values(|s: Segment| s@);
            out.push(segments[i].clone());
            assert(out@.map_values(|s: Segment| s@) =~= prev.push(segments@[i as int]@));
        }
        i = i + 1;
    }
    assert(all.subrange(0, i as int) =~= all);
    out
}

/// Puts what a definition adds into a model. `parsed` holds what the
/// definition was parsed to; `definition` tells by its first word which
/// part of it is meant.
pub fn add_definition(model: Model, parsed: &Model, definition: &str, replace: bool) -> (r: Model)
    ensures
        r@ == with_definition(model@, parsed@, definition@, replace),
{
    let chars = crate::text::trim_chars(&to_chars(definition));
    let up = upper_chars(&chars);
    let metric = to_chars("METRIC");
    let dimension = to_chars("DIMENSION");
    let segment = to_chars("SEGMENT");
    let mut updated = model;
    if crate::text::starts_at(&up, &metric, 0) {
        let ghost added = parsed@.metrics;
        let ghost start = updated@.metrics;
        let mut i: usize = 0;
        while i < parsed.metrics.len()
            invariant
                i <= parsed.metrics.len(),
                added == parsed@.metrics,
                updated@ == (ModelView { metrics: updated@.metrics, ..model@ }),
                with_metrics_from(start, added, 0, replace) == with_metrics_from(
                    updated@.metrics,
                    added,
                    i as int,
                    replace,
                ),
            decreases parsed.metrics.len() - i,
        {
            let item = parsed.metrics[i].clone();
            assert(added[i as int] == item@);
            if replace {
                let mut kept: Vec<Metric> = Vec::new();
                core::mem::swap(&mut kept, &mut updated.metrics);
                updated.metrics = remove_metrics(kept, item.name.as_str());
            }
            let ghost prev = updated@.metrics;
            updated.metrics.push(item);
            assert(updated@.metrics =~= prev.push(item@));
            i = i + 1;
        }
    } else if crate::text::starts_at(&up, &dimension, 0) {
        let ghost added = parsed@.dimensions;
        let ghost start = updated@.dimensions;
        let mut i: usize = 0;
        while i < parsed.dimensions.len()
            invariant
                i <= parsed.dimensions.len(),
                added == parsed@.dimensions,
                updated@ == (ModelView { dimensions: updated@.dimensions, ..model@ }),
                with_dimensions_from(start, added, 0, replace) == with_dimensions_from(
                    updated@.dimensions,
                    added,
                    i as int,
                    replace,
                ),
            decreases parsed.dimensions.len() - i,
        {
            let item = parsed.dimensions[i].clone();
            assert(added[i as int] == item@);
            if replace {
                let mut kept: Vec<Dimension> = Vec::new();
                core::mem::swap(&mut kept, &mut updated.dimensions);
                updated.dimensions = remove_dimensions(kept, item.name.as_str());
            }
            let ghost prev = updated@.dimensions;
            updated.dimensions.push(item);
            assert(updated@.dimensions =~= prev.push(item@));
            i = i + 1;
        }
    } else if crate::text::starts_at(&up, &segment, 0) {
        let ghost added = parsed@.segments;
        let ghost start = updated@.segments;
        let mut i: usize = 0;
        while i < parsed.segments.len()
            invariant
                i <= parsed.segments.len(),
                added == parsed@.segments,
                updated@ == (ModelView { segments: updated@.segments, ..model@ }),
                with_segments_from(start, added, 0, replace) == with_segments_from(
                    updated@.segments,
                    added,
                    i as int,
                    replace,
                ),
            decreases parsed.segments.len() - i,
        {
            let item = parsed.segments[i].clone();
            assert(added[i as int] == item@);
            if replace {
                let mut kept: Vec<Segment> = Vec::new();
                core::mem::swap(&mut kept, &mut updated.segments);
                updated.segments = remove_segments(kept, item.name.as_str());
            }
            let ghost prev = updated@.segments;
            updated.segments.push(item);
            assert(updated@.segments =~= prev.push(item@));
            i = i + 1;
        }
    }
    updated
}

} // verus!
