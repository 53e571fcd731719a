//! What an operation reports, and the tiers of output that decide how much
//! of it is wanted.

use crate::data::Timestamp;
use vstd::prelude::*;

verus! {

/// How much a human reader wants to see.
#[derive(Clone, Copy, Debug, PartialEq, Eq, Structural)]
pub enum NoiseLevel {
    Verbose,
    Normal,
    Quiet,
}

/// The tier of output that a caller asked for.
#[derive(Clone, Copy, Debug, PartialEq, Eq, Structural)]
pub enum OutputFormat {
    /// Comma-separated values.
    Csv,
    /// Text for a human reader, at some level of noise.
    Human(NoiseLevel),
    /// JSON, laid out for reading.
    Json,
    /// JSON on one line.
    JsonCompact,
    /// No output at all.
    Silent,
    /// Bare text, one value after another.
    TerseText,
    /// Tab-separated values.
    Tsv,
}

impl OutputFormat {
    /// Whether the output is for a human who did not ask for quiet: only
    /// then are auxiliary messages wanted.
    pub open spec fn spec_is_nonquiet_for_humans(&self) -> bool {
        match *self {
            OutputFormat::Human(NoiseLevel::Quiet) => false,
            OutputFormat::Human(_) => true,
            _ => false,
        }
    }

    /// Whether the output is for a human who did not ask for quiet: only
    /// then are auxiliary messages wanted.
    #[verifier::when_used_as_spec(spec_is_nonquiet_for_humans)]
    pub fn is_nonquiet_for_humans(&self) -> (r: bool)
        ensures
            r == self.spec_is_nonquiet_for_humans(),
    {
        match self {
            OutputFormat::Human(NoiseLevel::Quiet) => false,
            OutputFormat::Human(_) => true,
            _ => false,
        }
    }

    /// Whether nothing at all is to be put out.
    pub open spec fn spec_is_silent(&self) -> bool {
        *self == OutputFormat::Silent
    }

    /// Whether nothing at all is to be put out.
    #[verifier::when_used_as_spec(spec_is_silent)]
    pub fn is_silent(&self) -> (r: bool)
        ensures
            r == self.spec_is_silent(),
    {
        match self {
            OutputFormat::Silent => true,
            _ => false,
        }
    }

    /// Whether a report is to be put out: none is where the output is silent,
    /// only primary results are for a human who asked for quiet, and all are
    /// elsewhere.
    pub open spec fn spec_shows(&self, always: bool) -> bool {
        match *self {
            OutputFormat::Silent => false,
            OutputFormat::Human(NoiseLevel::Quiet) => always,
            _ => true,
        }
    }

    /// Whether a report is to be put out, primary result (`always`) or
    /// auxiliary message.
    #[verifier::when_used_as_spec(spec_shows)]
    pub fn shows(&self, always: bool) -> (r: bool)
        ensures
            r == self.spec_shows(always),
    {
        match self {
            OutputFormat::Silent => false,
            OutputFormat::Human(NoiseLevel::Quiet) => always,
            _ => true,
        }
    }

    /// Whether this is the tier of bare text.
    pub open spec fn spec_is_terse(&self) -> bool {
        *self == OutputFormat::TerseText
    }

    /// Whether this is the tier of bare text.
    #[verifier::when_used_as_spec(spec_is_terse)]
    pub fn is_terse(&self) -> (r: bool)
        ensures
            r == self.spec_is_terse(),
    {
        match self {
            OutputFormat::TerseText => true,
            _ => false,
        }
    }
}

/// One value of a report's row: a text, or a moment that the renderer writes
/// out in its own way.
#[derive(Debug, PartialEq, Eq)]
pub enum Cell {
    Text(String),
    Time(Timestamp),
}

/// A cell as contracts see it.
pub enum CellView {
    Text(Seq<char>),
    Time(Timestamp),
}

impl View for Cell {
    type V = CellView;

    open spec fn view(&self) -> CellView {
        match *self {
            Cell::Text(text) => CellView::Text(text@),
            Cell::Time(at) => CellView::Time(at),
        }
    }
}

impl DeepView for Cell {
    type V = CellView;

    open spec fn deep_view(&self) -> CellView {
        self@
    }
}

/// What an operation has to say: named columns, and rows of values under
/// them.
#[derive(Debug, PartialEq, Eq)]
pub struct Report {
    /// Whether this is a primary result, to be put out even where auxiliary
    /// messages are not.
    pub always: bool,
    pub labels: Vec<String>,
    pub rows: Vec<Vec<Cell>>,
}

/// A report as contracts see it.
pub struct ReportView {
    pub always: bool,
    pub labels: Seq<Seq<char>>,
    pub rows: Seq<Seq<CellView>>,
}

impl View for Report {
    type V = ReportView;

    open spec fn view(&self) -> ReportView {
        ReportView {
            always: self.always,
            labels: self.labels.deep_view(),
            rows: self.rows.deep_view(),
        }
    }
}

impl DeepView for Report {
    type V = ReportView;

    open spec fn deep_view(&self) -> ReportView {
        self@
    }
}

/// A row whose values are all texts.
pub open spec fn text_row(texts: Seq<Seq<char>>) -> Seq<CellView> {
    Seq::new(texts.len(), |i: int| CellView::Text(texts[i]))
}

/// Rows whose values are all texts.
pub open spec fn text_rows(rows: Seq<Seq<Seq<char>>>) -> Seq<Seq<CellView>> {
    Seq::new(rows.len(), |i: int| text_row(rows[i]))
}

impl ReportView {
    /// An auxiliary message made of texts.
    pub open spec fn log(labels: Seq<Seq<char>>, rows: Seq<Seq<Seq<char>>>) -> ReportView {
        ReportView { always: false, labels, rows: text_rows(rows) }
    }

    /// A primary result made of texts.
    pub open spec fn log_always(labels: Seq<Seq<char>>, rows: Seq<Seq<Seq<char>>>) -> ReportView {
        ReportView { always: true, labels, rows: text_rows(rows) }
    }
}

fn owned_texts(texts: &Vec<&str>) -> (owned: Vec<String>)
    ensures
        owned.deep_view() == texts.deep_view(),
{
    let mut owned: Vec<String> = Vec::new();
    let mut i: usize = 0;
    while i < texts.len()
        invariant
            i <= texts.len(),
            owned@.len() == i,
            forall|j: int| 0 <= j < i ==> owned@[j]@ == texts@[j]@,
        decreases texts.len() - i,
    {
        owned.push(texts[i].to_owned());
        i += 1;
    }
    assert(owned.deep_view() =~= texts.deep_view());
    owned
}

fn text_cells(texts: &Vec<&str>) -> (cells: Vec<Cell>)
    ensures
        cells.deep_view() == text_row(texts.deep_view()),
{
    let mut cells: Vec<Cell> = Vec::new();
    let mut i: usize = 0;
    while i < texts.len()
        invariant
            i <= texts.len(),
            cells@.len() == i,
            forall|j: int| 0 <= j < i ==> cells@[j]@ == CellView::Text(texts@[j]@),
        decreases texts.len() - i,
    {
        cells.push(Cell::Text(texts[i].to_owned()));
        i += 1;
    }
    assert(cells.deep_view() =~= text_row(texts.deep_view()));
    cells
}

impl Report {
    fn of_texts(always: bool, labels: Vec<&str>, rows: Vec<Vec<&str>>) -> (report: Report)
        ensures
            report@ == (ReportView {
                always,
                labels: labels.deep_view(),
                rows: text_rows(rows.deep_view()),
            }),
    {
        let mut cells: Vec<Vec<Cell>> = Vec::new();
        let mut i: usize = 0;
        while i < rows.len()
            invariant
                i <= rows.len(),
                cells@.len() == i,
                forall|j: int| 0 <= j < i ==> cells@[j].deep_view() == text_row(rows@[j].deep_view()),
            decreases rows.len() - i,
        {
            cells.push(text_cells(&rows[i]));
            i += 1;
        }
        assert(cells.deep_view() =~= text_rows(rows.deep_view()));
        Report { always, labels: owned_texts(&labels), rows: cells }
    }

    /// An auxiliary message made of texts.
    pub fn log(labels: Vec<&str>, rows: Vec<Vec<&str>>) -> (report: Report)
        ensures
            report@ == ReportView::log(labels.deep_view(), rows.deep_view()),
    {
        Report::of_texts(false, labels, rows)
    }

    /// A primary result made of texts.
    pub fn log_always(labels: Vec<&str>, rows: Vec<Vec<&str>>) -> (report: Report)
        ensures
            report@ == ReportView::log_always(labels.deep_view(), rows.deep_view()),
    {
        Report::of_texts(true, labels, rows)
    }
}

} // verus!
