//! Measured numbers with the texts that stand for them.
use crate::json::{Json, JsonView};
use crate::score;
use crate::score::Score;
use crate::text::chars::own;
use vstd::prelude::*;

verus! {

/// A measured number: its place among the numbers and its texts.
#[derive(Debug, Clone)]
pub struct Figure {
    pub score: Score,
    /// The number as it stands in JSON.
    pub json: String,
    /// The number as it is shown.
    pub shown: String,
}

/// What a [`Figure`] stands for.
#[verifier::ext_equal]
pub struct FigureView {
    pub score: Score,
    pub json: Seq<char>,
    pub shown: Seq<char>,
}

impl View for Figure {
    type V = FigureView;

    open spec fn view(&self) -> FigureView {
        FigureView { score: self.score, json: self.json@, shown: self.shown@ }
    }
}

/// What an optional figure stands for.
pub open spec fn opt_figure(f: Option<Figure>) -> Option<FigureView> {
    match f {
        Some(x) => Some(x@),
        None => None,
    }
}

/// Whether two figures are the same number.
pub open spec fn equal_figure(a: FigureView, b: FigureView) -> bool {
    score::same_number(a.score.rank as int, b.score.rank as int)
}

/// Whether a figure, if it is there, is a number.
pub open spec fn is_number_if(f: Option<FigureView>) -> bool {
    f matches Some(x) ==> score::is_number(x.score.rank as int)
}

/// Whether two optional figures are the same number, or both missing.
pub open spec fn equal_figures(a: Option<FigureView>, b: Option<FigureView>) -> bool {
    match (a, b) {
        (Some(x), Some(y)) => equal_figure(x, y),
        (None, None) => true,
        _ => false,
    }
}

/// A figure in JSON, or null.
pub open spec fn figure_json(f: Option<FigureView>) -> JsonView {
    match f {
        Some(x) => JsonView::Number(x.json),
        None => JsonView::Null,
    }
}

/// Whether two figures are the same number.
pub fn same_figure(a: &Figure, b: &Figure) -> (r: bool)
    ensures
        r == equal_figure(a@, b@),
{
    a.score.is_number() && a.score.rank == b.score.rank
}

/// Whether two optional figures are the same number, or both missing.
pub fn same_figures(a: &Option<Figure>, b: &Option<Figure>) -> (r: bool)
    ensures
        r == equal_figures(opt_figure(*a), opt_figure(*b)),
{
    match (a, b) {
        (Some(x), Some(y)) => same_figure(x, y),
        (None, None) => true,
        _ => false,
    }
}

/// A copy of a figure.
pub fn own_figure(f: &Figure) -> (r: Figure)
    ensures
        r@ == f@,
{
    Figure {
        score: Score { rank: f.score.rank },
        json: own(f.json.as_str()),
        shown: own(f.shown.as_str()),
    }
}

/// A copy of an optional figure.
pub fn own_figure_opt(f: &Option<Figure>) -> (r: Option<Figure>)
    ensures
        opt_figure(r) == opt_figure(*f),
{
    match f {
        Some(x) => Some(own_figure(x)),
        None => None,
    }
}

/// A figure in JSON.
pub fn number(f: &Figure) -> (r: Json)
    ensures
        r@ == JsonView::Number(f@.json),
{
    Json::Number(own(f.json.as_str()))
}

/// A figure in JSON, or null.
pub fn number_or_null(f: &Option<Figure>) -> (r: Json)
    ensures
        r@ == figure_json(opt_figure(*f)),
{
    match f {
        Some(x) => number(x),
        None => Json::Null,
    }
}

} // verus!
