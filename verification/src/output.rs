//! What a command shows the user, line by line. Commands compute these lines;
//! printing them (with colours and symbols) is left to the caller.

use vstd::prelude::*;

verus! {

/// One line of a command's report.
pub enum OutputLine {
    /// The heading of a whole report.
    Section(String),
    /// The heading of a part of a report.
    Subsection(String),
    /// A labelled value.
    KeyValue(String, String),
    /// A labelled value to stand out.
    KeyValueHighlight(String, String),
    Info(String),
    /// Secondary text.
    Dimmed(String),
    Success(String),
    Warning(String),
    Error(String),
    /// An empty line.
    Blank,
}

/// A report line as plain values.
pub enum LineView {
    Section(Seq<char>),
    Subsection(Seq<char>),
    KeyValue(Seq<char>, Seq<char>),
    KeyValueHighlight(Seq<char>, Seq<char>),
    Info(Seq<char>),
    Dimmed(Seq<char>),
    Success(Seq<char>),
    Warning(Seq<char>),
    Error(Seq<char>),
    Blank,
}

impl View for OutputLine {
    type V = LineView;

    open spec fn view(&self) -> LineView {
        match self {
            OutputLine::Section(s) => LineView::Section(s@),
            OutputLine::Subsection(s) => LineView::Subsection(s@),
            OutputLine::KeyValue(k, v) => LineView::KeyValue(k@, v@),
            OutputLine::KeyValueHighlight(k, v) => LineView::KeyValueHighlight(k@, v@),
            OutputLine::Info(s) => LineView::Info(s@),
            OutputLine::Dimmed(s) => LineView::Dimmed(s@),
            OutputLine::Success(s) => LineView::Success(s@),
            OutputLine::Warning(s) => LineView::Warning(s@),
            OutputLine::Error(s) => LineView::Error(s@),
            OutputLine::Blank => LineView::Blank,
        }
    }
}

/// The plain values of a list of report lines.
pub open spec fn lines_view(v: Seq<OutputLine>) -> Seq<LineView> {
    v.map_values(|l: OutputLine| l@)
}

/// Appends `l` to `out`.
pub fn emit(out: &mut Vec<OutputLine>, l: OutputLine)
    ensures
        lines_view(final(out)@) == lines_view(old(out)@).push(l@),
{
    let ghost before = out@;
    out.push(l);
    assert(lines_view(out@) =~= lines_view(before).push(l@));
}

} // verus!
