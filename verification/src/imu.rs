//! Inertial input: its errors, and the replay of a recorded log.

use crate::double::Double;
use crate::jsonl;
use crate::jsonl::{parse_imu_line, ImuSample};
use crate::text;
use crate::text::decimal_text;
use vstd::prelude::*;

verus! {

/// Errors of a source of samples.
#[derive(Debug, Clone)]
pub enum ImuError {
    /// A file that cannot be read or understood.
    Io(String),
    /// The device stopped answering.
    Unplugged(String),
    /// The end of a recorded log.
    Eof,
}

/// What an [`ImuError`] holds.
pub enum ImuErrorView {
    Io(Seq<char>),
    Unplugged(Seq<char>),
    Eof,
}

impl View for ImuError {
    type V = ImuErrorView;

    open spec fn view(&self) -> ImuErrorView {
        match *self {
            ImuError::Io(m) => ImuErrorView::Io(m@),
            ImuError::Unplugged(m) => ImuErrorView::Unplugged(m@),
            ImuError::Eof => ImuErrorView::Eof,
        }
    }
}

/// The text of an error.
pub open spec fn error_text(e: ImuErrorView) -> Seq<char> {
    match e {
        ImuErrorView::Io(m) => "I/O error: "@ + m,
        ImuErrorView::Unplugged(m) => "device error: "@ + m,
        ImuErrorView::Eof => "end of input"@,
    }
}

impl ImuError {
    /// The text of the error.
    pub fn message(&self) -> (r: String)
        ensures
            r@ == error_text(self@),
    {
        match self {
            ImuError::Io(m) => {
                let mut s = "I/O error: ".to_owned();
                s.append(m.as_str());
                s
            },
            ImuError::Unplugged(m) => {
                let mut s = "device error: ".to_owned();
                s.append(m.as_str());
                s
            },
            ImuError::Eof => "end of input".to_owned(),
        }
    }
}

/// A line of a recorded log, as far as reading it goes.
#[derive(Debug, Clone)]
pub enum Line {
    /// The text of a line, and the numbers that its values read as.
    Text { line: String, numbers: Vec<Option<Double>> },
    /// There are no more lines.
    End,
    /// Reading failed, for this reason.
    Failed(String),
}

/// What a line leads to.
#[derive(Debug, Clone)]
pub enum Replayed {
    /// A sample, and the time of the one before it.
    Sample { sample: ImuSample, previous: Option<Double> },
    /// A blank line: the next one has to be read.
    Skip,
    /// The replay stops.
    Stop(ImuError),
}

/// What a [`Replayed`] holds.
pub enum ReplayedView {
    Sample { sample: ImuSample, previous: Option<Double> },
    Skip,
    Stop(ImuErrorView),
}

impl View for Replayed {
    type V = ReplayedView;

    open spec fn view(&self) -> ReplayedView {
        match *self {
            Replayed::Sample { sample, previous } => ReplayedView::Sample { sample, previous },
            Replayed::Skip => ReplayedView::Skip,
            Replayed::Stop(e) => ReplayedView::Stop(e@),
        }
    }
}

/// The replay of a recorded log.
#[derive(Debug, Clone)]
pub struct ReplaySource {
    pub path: String,
    pub line_no: u64,
    pub prev_t: Option<Double>,
    pub eof: bool,
}

/// What a [`ReplaySource`] holds.
pub struct ReplayView {
    pub path: Seq<char>,
    pub line_no: u64,
    pub prev_t: Option<Double>,
    pub eof: bool,
}

impl View for ReplaySource {
    type V = ReplayView;

    open spec fn view(&self) -> ReplayView {
        ReplayView {
            path: self.path@,
            line_no: self.line_no,
            prev_t: self.prev_t,
            eof: self.eof,
        }
    }
}

/// What a line makes of the state of a replay, and what it leads to.
pub open spec fn replayed(s: ReplayView, line: Line) -> (ReplayView, ReplayedView) {
    if s.eof {
        (s, ReplayedView::Stop(ImuErrorView::Eof))
    } else {
        match line {
            Line::Failed(e) => (
                s,
                ReplayedView::Stop(ImuErrorView::Io("read "@ + s.path + ": "@ + e@)),
            ),
            Line::End => (ReplayView { eof: true, ..s }, ReplayedView::Stop(ImuErrorView::Eof)),
            Line::Text { line, numbers } => {
                let next = ReplayView { line_no: (s.line_no + 1) as u64, ..s };
                match jsonl::parsed_line(line@, numbers@) {
                    Ok(Some(sample)) => (
                        ReplayView { prev_t: Some(sample.t), ..next },
                        ReplayedView::Sample { sample, previous: s.prev_t },
                    ),
                    Ok(None) => (next, ReplayedView::Skip),
                    Err(m) => (
                        next,
                        ReplayedView::Stop(
                            ImuErrorView::Io(
                                s.path + ":"@ + text::digits_of(next.line_no as nat) + ": "@ + m,
                            ),
                        ),
                    ),
                }
            },
        }
    }
}

impl ReplaySource {
    /// The replay of the log at `path`, from its start.
    pub fn open(path: &str) -> (r: ReplaySource)
        ensures
            r@ == (ReplayView { path: path@, line_no: 0, prev_t: None, eof: false }),
    {
        ReplaySource { path: path.to_owned(), line_no: 0, prev_t: None, eof: false }
    }

    /// Takes in the next line of the log. After its end the replay stays at the
    /// end.
    pub fn next_sample(&mut self, line: &Line) -> (r: Replayed)
        requires
            old(self)@.line_no < u64::MAX,
        ensures
            (final(self)@, r@) == replayed(old(self)@, *line),
    {
        if self.eof {
            return Replayed::Stop(ImuError::Eof);
        }
        match line {
            Line::Failed(e) => {
                let mut m = "read ".to_owned();
                m.append(self.path.as_str());
                m.append(": ");
                m.append(e.as_str());
                Replayed::Stop(ImuError::Io(m))
            },
            Line::End => {
                self.eof = true;
                Replayed::Stop(ImuError::Eof)
            },
            Line::Text { line, numbers } => {
                self.line_no = self.line_no + 1;
                match parse_imu_line(line.as_str(), numbers) {
                    Ok(Some(sample)) => {
                        let previous = self.prev_t;
                        self.prev_t = Some(sample.t);
                        Replayed::Sample { sample, previous }
                    },
                    Ok(None) => Replayed::Skip,
                    Err(e) => {
                        let mut m = self.path.as_str().to_owned();
                        m.append(":");
                        m.append(decimal_text(self.line_no).as_str());
                        m.append(": ");
                        m.append(e.as_str());
                        Replayed::Stop(ImuError::Io(m))
                    },
                }
            },
        }
    }

    /// The name of the source.
    pub fn name(&self) -> (r: String)
        ensures
            r@ == "replay("@ + self@.path + ")"@,
    {
        let mut m = "replay(".to_owned();
        m.append(self.path.as_str());
        m.append(")");
        m
    }
}

/// Once the end of the log was met, every further read meets it again.
pub proof fn law_end_of_log_is_final(s: ReplayView, line: Line, later: Line)
    requires
        replayed(s, line).1 == ReplayedView::Stop(ImuErrorView::Eof),
    ensures
        replayed(replayed(s, line).0, later) == (
            replayed(s, line).0,
            ReplayedView::Stop(ImuErrorView::Eof),
        ),
{
}

/// The replay after these lines, one after the other.
pub open spec fn replay_after(s: ReplayView, lines: Seq<Line>) -> ReplayView
    decreases lines.len(),
{
    if lines.len() == 0 {
        s
    } else {
        replayed(replay_after(s, lines.drop_last()), lines.last()).0
    }
}

/// What these lines lead to, one after the other.
pub open spec fn replay_of(s: ReplayView, lines: Seq<Line>) -> Seq<ReplayedView>
    decreases lines.len(),
{
    if lines.len() == 0 {
        Seq::empty()
    } else {
        replay_of(s, lines.drop_last()).push(
            replayed(replay_after(s, lines.drop_last()), lines.last()).1,
        )
    }
}

/// What a line of text says.
pub open spec fn said(line: Line) -> Result<Option<ImuSample>, Seq<char>> {
    match line {
        Line::Text { line, numbers } => jsonl::parsed_line(line@, numbers@),
        _ => Ok(None),
    }
}

/// The time of the last sample in these lines.
pub open spec fn last_time(lines: Seq<Line>) -> Option<Double>
    decreases lines.len(),
{
    if lines.len() == 0 {
        None
    } else {
        match said(lines.last()) {
            Ok(Some(sample)) => Some(sample.t),
            _ => last_time(lines.drop_last()),
        }
    }
}

/// The results that a reader gets: those of the lines that are not blank, in order.
pub open spec fn told(results: Seq<ReplayedView>) -> Seq<ReplayedView> {
    results.filter(|r: ReplayedView| !(r is Skip))
}

/// What the `i`th of the lines of the log at `path` leads to: its sample, with the time
/// of the one before, or the complaint about it, with its number.
pub open spec fn result_of(path: Seq<char>, lines: Seq<Line>, i: int) -> ReplayedView {
    match said(lines[i]) {
        Ok(Some(sample)) => ReplayedView::Sample {
            sample,
            previous: last_time(lines.subrange(0, i)),
        },
        Ok(None) => ReplayedView::Skip,
        Err(m) => ReplayedView::Stop(
            ImuErrorView::Io(path + ":"@ + text::digits_of((i + 1) as nat) + ": "@ + m),
        ),
    }
}

/// A log is replayed line by line, in order: a reader gets one result for each line that
/// is not blank, that of the line itself, and then the end of the log. No sample is
/// dropped, repeated or moved.
pub proof fn law_log_replays_in_order(path: Seq<char>, lines: Seq<Line>)
    requires
        forall|i: int| 0 <= i < lines.len() ==> (#[trigger] lines[i]) is Text,
        lines.len() < u64::MAX,
    ensures
        ({
            let start = ReplayView { path, line_no: 0, prev_t: None, eof: false };
            let results = Seq::new(lines.len(), |i: int| result_of(path, lines, i));
            &&& replay_of(start, lines) == results
            &&& told(replay_of(start, lines)) == told(results)
            &&& replayed(replay_after(start, lines), Line::End).1 == ReplayedView::Stop(
                ImuErrorView::Eof,
            )
        }),
{
    lemma_replay_state(path, lines);
    let start = ReplayView { path, line_no: 0, prev_t: None, eof: false };
    assert(replay_of(start, lines) =~= Seq::new(
        lines.len(),
        |i: int| result_of(path, lines, i),
    ));
}

proof fn lemma_replay_state(path: Seq<char>, lines: Seq<Line>)
    requires
        forall|i: int| 0 <= i < lines.len() ==> (#[trigger] lines[i]) is Text,
        lines.len() < u64::MAX,
    ensures
        ({
            let start = ReplayView { path, line_no: 0, prev_t: None, eof: false };
            &&& replay_after(start, lines) == (ReplayView {
                path,
                line_no: lines.len() as u64,
                prev_t: last_time(lines),
                eof: false,
            })
            &&& replay_of(start, lines).len() == lines.len()
            &&& forall|i: int|
                0 <= i < lines.len() ==> #[trigger] replay_of(start, lines)[i] == result_of(
                    path,
                    lines,
                    i,
                )
        }),
    decreases lines.len(),
{
    if lines.len() > 0 {
        let start = ReplayView { path, line_no: 0, prev_t: None, eof: false };
        let before = lines.drop_last();
        assert forall|i: int| 0 <= i < before.len() implies (#[trigger] before[i]) is Text by {
            assert(before[i] == lines[i]);
        }
        lemma_replay_state(path, before);
        let n = lines.len() - 1;
        assert(lines[n] is Text);
        assert(lines.subrange(0, n) =~= before);
        assert forall|i: int| 0 <= i < lines.len() implies #[trigger] replay_of(start, lines)[i]
            == result_of(path, lines, i) by {
            if i < n {
                assert(lines.subrange(0, i) =~= before.subrange(0, i));
                assert(replay_of(start, before)[i] == result_of(path, before, i));
            }
        }
    }
}

/// An error says what kind it is of, and why.
pub proof fn law_error_says_its_kind(e: ImuError, r: String)
    requires
        call_ensures(ImuError::message, (&e,), r),
    ensures
        e matches ImuError::Io(m) ==> r@ == "I/O error: "@ + m@,
        e matches ImuError::Unplugged(m) ==> r@ == "device error: "@ + m@,
        e is Eof ==> r@ == "end of input"@,
{
}

/// A replay starts at the first line of its log, with no sample before, and is named
/// after it.
pub proof fn law_replay_starts_at_first_line(path: &str, s: ReplaySource, name: String)
    requires
        call_ensures(ReplaySource::open, (path,), s),
        call_ensures(ReplaySource::name, (&s,), name),
    ensures
        s.path@ == path@,
        s.line_no == 0,
        s.prev_t is None,
        !s.eof,
        name@ == "replay("@ + path@ + ")"@,
{
}

/// A line of text leads to what reading it as a sample gives: the sample with the time of
/// the one before, nothing, or the complaint with the number of the line. Each line of
/// text counts, blank or not.
pub proof fn law_line_leads_to_its_sample(
    s: &mut ReplaySource,
    line: String,
    numbers: Vec<Option<Double>>,
    text: &str,
    parsed: Result<Option<ImuSample>, String>,
    r: Replayed,
)
    requires
        old(s).line_no < u64::MAX,
        !old(s).eof,
        text@ == line@,
        call_ensures(parse_imu_line, (text, &numbers), parsed),
        call_ensures(ReplaySource::next_sample, (s, &Line::Text { line, numbers }), r),
    ensures
        final(s).line_no == old(s).line_no + 1,
        final(s).path@ == old(s).path@,
        !final(s).eof,
        parsed matches Ok(Some(sample)) ==> {
            &&& r matches Replayed::Sample { sample: a, previous: b } && a == sample && b == old(
                s).prev_t
            &&& final(s).prev_t == Some(sample.t)
        },
        parsed matches Ok(None) ==> r is Skip && final(s).prev_t == old(s).prev_t,
        parsed matches Err(e) ==> {
            &&& r matches Replayed::Stop(ImuError::Io(m)) && m@ == old(s).path@ + ":"@
                + crate::text::digits_of((old(s).line_no + 1) as nat) + ": "@ + e@
            &&& final(s).prev_t == old(s).prev_t
        },
{
    assert(final(s)@.line_no == old(s)@.line_no + 1);
    assert(r@ == replayed(old(s)@, Line::Text { line, numbers }).1);
}

/// The end of the log, and a failed read, stop the replay; the end stays, and a failed
/// read changes nothing.
pub proof fn law_replay_stops_at_end(
    s: &mut ReplaySource,
    line: Line,
    r: Replayed,
)
    requires
        old(s).line_no < u64::MAX,
        call_ensures(ReplaySource::next_sample, (s, &line), r),
    ensures
        old(s).eof ==> r matches Replayed::Stop(ImuError::Eof),
        old(s).eof ==> final(s)@ == old(s)@,
        !old(s).eof && line is End ==> r matches Replayed::Stop(ImuError::Eof),
        !old(s).eof && line is End ==> final(s).eof && final(s).path@ == old(s).path@,
        !old(s).eof && line is Failed ==> {
            &&& r matches Replayed::Stop(ImuError::Io(m)) && m@ == "read "@ + old(s).path@ + ": "@
                + line->Failed_0@
            &&& final(s)@ == old(s)@
        },
{
    assert(r@ == replayed(old(s)@, line).1);
    assert(final(s)@ == replayed(old(s)@, line).0);
}

} // verus!
