//! Checking a file's timing, and telling what was found.

use crate::load::LoadError;
use crate::text;
use crate::timing;
use crate::timing::{Analysis, CadenceCheck, CadenceFigures, LoadedFrame};
use vstd::prelude::*;

verus! {

/// A place where a recording states its timing.
#[derive(Debug, Clone, Copy, PartialEq, Eq, Structural)]
pub enum TimingSource {
    /// The container's sample tables, which a player orders frames by.
    Container,
    /// The per-frame precision timestamps in the bitstream.
    Sei,
}

impl TimingSource {
    /// Human-readable name of the timing source.
    pub open spec fn name(self) -> Seq<char> {
        match self {
            TimingSource::Container => "container (stts/ctts)"@,
            TimingSource::Sei => "precision-timestamp SEI"@,
        }
    }

    /// Human-readable name of the timing source.
    pub fn label(self) -> (label: &'static str)
        ensures
            label@ == self.name(),
    {
        match self {
            TimingSource::Container => "container (stts/ctts)",
            TimingSource::Sei => "precision-timestamp SEI",
        }
    }
}

/// One timing signal checked against the bitstream's display order for a file.
#[derive(Debug, Clone, Copy, PartialEq, Eq, Structural)]
pub struct SourceCheck {
    pub source: TimingSource,
    pub analysis: Analysis,
}

/// Everything checked for one file.
#[derive(Debug)]
pub struct FileReport {
    /// Each available timing series, checked against bitstream display order.
    pub sources: Vec<SourceCheck>,
    /// Container rate against capture rate. `None` unless the file has both
    /// container timing and SEI, and at least two frames spanning some time.
    pub cadence: Option<CadenceCheck>,
}

impl FileReport {
    /// How many frames the file has, going by the first series checked.
    pub open spec fn frames(self) -> nat {
        if self.sources@.len() == 0 {
            0
        } else {
            self.sources@[0].analysis.num_frames as nat
        }
    }

    /// How many frames the file has, going by the first series checked.
    pub fn num_frames(&self) -> (n: usize)
        ensures
            n == self.frames(),
    {
        if self.sources.len() == 0 {
            0
        } else {
            self.sources[0].analysis.num_frames
        }
    }

    /// The rate comparison, if there is one, is within its counter's range.
    pub open spec fn wf(self) -> bool {
        self.cadence matches Some(c) ==> c.drift() <= i64::MAX
    }

    /// The container plays at the wrong rate.
    pub open spec fn off_rate(self) -> bool {
        self.cadence matches Some(c) && c.broken()
    }

    /// Some timing signal is faulty.
    pub open spec fn faulty(self) -> bool {
        ||| exists|i: int|
            0 <= i < self.sources@.len() && (#[trigger] self.sources@[i]).analysis.broken()
        ||| self.off_rate()
    }
}

/// `check` tells of the series `frames`, stated by `source`.
pub open spec fn checks(
    check: SourceCheck,
    source: TimingSource,
    frames: Seq<LoadedFrame>,
) -> bool {
    check.source == source && timing::describes(check.analysis, frames)
}

/// `cadence` compares the rates of the two series.
pub open spec fn compares(
    cadence: Option<CadenceCheck>,
    container: Seq<LoadedFrame>,
    sei: Seq<LoadedFrame>,
) -> bool {
    &&& cadence is Some <==> timing::cadence_of(container, sei) is Some
    &&& cadence matches Some(c) ==> timing::cadence_of(container, sei) == Some(
        (c.container_span_ns as int, c.sei_span_ns as int, c.mean_interval_ns as int),
    )
}

/// `report` tells of a file with this container timing and these capture times.
pub open spec fn reports(
    report: FileReport,
    container: Option<Seq<LoadedFrame>>,
    sei: Option<Seq<LoadedFrame>>,
) -> bool {
    let list = report.sources@;
    &&& report.wf()
    &&& match (container, sei) {
        (Some(c), Some(s)) => {
            &&& list.len() == 2
            &&& checks(list[0], TimingSource::Container, c)
            &&& checks(list[1], TimingSource::Sei, s)
            &&& compares(report.cadence, c, s)
        },
        (Some(c), None) => {
            &&& list.len() == 1
            &&& checks(list[0], TimingSource::Container, c)
            &&& report.cadence is None
        },
        (None, Some(s)) => {
            &&& list.len() == 1
            &&& checks(list[0], TimingSource::Sei, s)
            &&& report.cadence is None
        },
        (None, None) => list.len() == 0 && report.cadence is None,
    }
}

/// The frames of an MP4 loaded with its container timing, or the message saying
/// why it could not be checked.
pub fn container_frames(path: &str, loaded: Result<Vec<LoadedFrame>, LoadError>) -> (frames: Result<
    Vec<LoadedFrame>,
    String,
>)
    ensures
        loaded matches Ok(f) ==> frames == Ok::<Vec<LoadedFrame>, String>(f),
        loaded matches Err(LoadError::Other(m)) ==> frames == Err::<Vec<LoadedFrame>, String>(m),
        loaded matches Err(LoadError::NoTimestamps) ==> (frames matches Err(m) && m@ == "\""@
            + path@ + "\": MP4 has no container sample timing"@),
{
    match loaded {
        Ok(frames) => Ok(frames),
        Err(LoadError::Other(message)) => Err(message),
        Err(LoadError::NoTimestamps) => {
            let mut message = text::joined("\"", path);
            message.append("\": MP4 has no container sample timing");
            Err(message)
        },
    }
}

/// The message for a file without any timing.
pub open spec fn nothing_to_check(path: Seq<char>) -> Seq<char> {
    "\""@ + path
        + "\" has no per-frame precision-timestamp SEI and no container timing, so there is nothing for this tool to check"@
}

/// The frames of a series.
pub open spec fn series_of(frames: Option<Vec<LoadedFrame>>) -> Option<Seq<LoadedFrame>> {
    match frames {
        Some(list) => Some(list@),
        None => None,
    }
}

/// Runs every applicable check for `path`: `container` are its frames with the
/// container's timing if it is an MP4, and `sei` came of loading it with its
/// per-frame precision timestamps.
///
/// An MP4 always carries container timing, so that is checked for every MP4,
/// including one without precision timestamps. Those are checked whenever they are
/// present; for a raw Annex B file they are the only signal. When both are present
/// they are also checked against each other for rate, which is a different fault
/// from ordering; see [`CadenceCheck`].
pub fn check_file(
    path: &str,
    container: Option<Vec<LoadedFrame>>,
    sei: Result<Vec<LoadedFrame>, LoadError>,
) -> (report: Result<FileReport, String>)
    requires
        container matches Some(c) ==> (sei matches Ok(s) ==> timing::cadence_fits(c@, s@)),
    ensures
        sei matches Ok(s) ==> (report matches Ok(r) && reports(r, series_of(container), Some(s@))),
        sei matches Err(LoadError::Other(m)) ==> report == Err::<FileReport, String>(m),
        sei matches Err(LoadError::NoTimestamps) ==> {
            if container is Some {
                report matches Ok(r) && reports(r, series_of(container), None)
            } else {
                report matches Err(m) && m@ == nothing_to_check(path@)
            }
        },
{
    let mut sources: Vec<SourceCheck> = Vec::new();
    if let Some(frames) = &container {
        sources.push(
            SourceCheck {
                source: TimingSource::Container,
                analysis: timing::analyze(frames.as_slice()),
            },
        );
    }
    match sei {
        Ok(frames) => {
            sources.push(
                SourceCheck {
                    source: TimingSource::Sei,
                    analysis: timing::analyze(frames.as_slice()),
                },
            );
            let cadence = match &container {
                Some(c) => timing::cadence_check(c.as_slice(), frames.as_slice()),
                None => None,
            };
            Ok(FileReport { sources, cadence })
        },
        Err(LoadError::NoTimestamps) => {
            if container.is_none() {
                let mut message = text::joined("\"", path);
                message.append(
                    "\" has no per-frame precision-timestamp SEI and no container timing, so there is nothing for this tool to check",
                );
                return Err(message);
            }
            // An MP4 without precision timestamps is still covered by the container check.
            Ok(FileReport { sources, cadence: None })
        },
        Err(LoadError::Other(message)) => Err(message),
    }
}

/// One line of output, and whether it counts against the exit status.
#[derive(Debug)]
pub struct Line {
    pub text: String,
    pub flagged: bool,
}

/// Does any line count against the exit status?
pub fn any_flagged(lines: &Vec<Line>) -> (any: bool)
    ensures
        any == exists|i: int| 0 <= i < lines@.len() && (#[trigger] lines@[i]).flagged,
{
    let mut i: usize = 0;
    while i < lines.len()
        invariant
            i <= lines.len(),
            forall|j: int| 0 <= j < i ==> !(#[trigger] lines@[j]).flagged,
        decreases lines.len() - i,
    {
        if lines[i].flagged {
            return true;
        }
        i += 1;
    }
    false
}

/// What is wrong with one series, whose worst step back is `early_ms` milliseconds.
pub open spec fn source_detail(check: SourceCheck, early_ms: Seq<char>) -> Seq<char> {
    check.source.name() + ": "@ + text::decimal_text(check.analysis.num_inversions as nat)
        + " of "@ + text::decimal_text(check.analysis.num_frames as nat)
        + " samples inconsistent with bitstream POC order, up to "@ + early_ms + "ms early"@
}

fn describe_source(check: &SourceCheck, early_ms: &str) -> (detail: String)
    ensures
        detail@ == source_detail(*check, early_ms@),
{
    let mut detail = check.source.label().to_owned();
    detail.append(": ");
    detail.append(text::decimal(check.analysis.num_inversions as u64).as_str());
    detail.append(" of ");
    detail.append(text::decimal(check.analysis.num_frames as u64).as_str());
    detail.append(" samples inconsistent with bitstream POC order, up to ");
    detail.append(early_ms);
    detail.append("ms early");
    detail
}

/// What is wrong with the first `n` series.
pub open spec fn source_details(
    sources: Seq<SourceCheck>,
    early_ms: Seq<Seq<char>>,
    n: int,
) -> Seq<Seq<char>>
    decreases n,
{
    if n <= 0 {
        seq![]
    } else {
        let earlier = source_details(sources, early_ms, n - 1);
        if sources[n - 1].analysis.broken() {
            earlier.push(source_detail(sources[n - 1], early_ms[n - 1]))
        } else {
            earlier
        }
    }
}

/// Everything that is wrong with a file.
pub open spec fn details(
    report: FileReport,
    early_ms: Seq<Seq<char>>,
    figures: Option<CadenceFigures>,
) -> Seq<Seq<char>> {
    let list = source_details(report.sources@, early_ms, report.sources@.len() as int);
    if report.off_rate() {
        list.push((report.cadence->0).description(figures->0))
    } else {
        list
    }
}

/// Everything that was checked for a file.
pub open spec fn checked(report: FileReport) -> Seq<Seq<char>> {
    let list = report.sources@.map_values(|c: SourceCheck| c.source.name());
    if report.cadence is Some {
        list.push("container-vs-capture rate"@)
    } else {
        list
    }
}

/// The line shown for a file.
pub open spec fn report_text(
    path: Seq<char>,
    report: FileReport,
    early_ms: Seq<Seq<char>>,
    figures: Option<CadenceFigures>,
) -> Seq<char> {
    if report.faulty() {
        "BROKEN  "@ + path + "  ("@ + text::join_text(details(report, early_ms, figures), "; "@)
            + ")"@
    } else {
        "OK      "@ + path + "  ("@ + text::decimal_text(report.frames())
            + " samples; checked: "@ + text::join_text(checked(report), ", "@) + ")"@
    }
}

proof fn lemma_details_of_faults(sources: Seq<SourceCheck>, early_ms: Seq<Seq<char>>, n: int)
    requires
        0 <= n <= sources.len(),
    ensures
        source_details(sources, early_ms, n).len() > 0 <==> exists|i: int|
            0 <= i < n && (#[trigger] sources[i]).analysis.broken(),
    decreases n,
{
    if n > 0 {
        lemma_details_of_faults(sources, early_ms, n - 1);
        if sources[n - 1].analysis.broken() {
            assert(exists|i: int| 0 <= i < n && (#[trigger] sources[i]).analysis.broken());
        }
    }
}

/// The line for a file that was checked. `early_ms` tells, for each series, its
/// worst step back in milliseconds, and `figures` the rounded figures of a faulty
/// rate.
pub fn report_line(
    path: &str,
    report: &FileReport,
    early_ms: &Vec<String>,
    figures: Option<&CadenceFigures>,
) -> (line: Line)
    requires
        report.wf(),
        early_ms@.len() == report.sources@.len(),
        report.off_rate() ==> figures is Some,
    ensures
        line.flagged == report.faulty(),
        line.text@ == report_text(
            path@,
            *report,
            text::views(early_ms@),
            match figures {
                Some(f) => Some(*f),
                None => None,
            },
        ),
{
    let ghost texts = text::views(early_ms@);
    let mut found: Vec<String> = Vec::new();
    let mut labels: Vec<String> = Vec::new();
    let ghost names = report.sources@.map_values(|c: SourceCheck| c.source.name());
    let mut i: usize = 0;
    assert(text::views(found@) =~= source_details(report.sources@, texts, 0));
    while i < report.sources.len()
        invariant
            texts == text::views(early_ms@),
            names == report.sources@.map_values(|c: SourceCheck| c.source.name()),
            early_ms@.len() == report.sources@.len(),
            i <= report.sources.len(),
            text::views(found@) == source_details(report.sources@, texts, i as int),
            text::views(labels@) =~= names.take(i as int),
        decreases report.sources.len() - i,
    {
        assert(texts[i as int] == early_ms@[i as int]@);
        let ghost before = found@;
        if report.sources[i].analysis.is_broken() {
            let detail = describe_source(&report.sources[i], early_ms[i].as_str());
            found.push(detail);
            assert(text::views(found@) =~= text::views(before).push(detail@));
        }
        let ghost listed = labels@;
        let label = report.sources[i].source.label().to_owned();
        labels.push(label);
        assert(text::views(labels@) =~= text::views(listed).push(label@));
        assert(names.take(i + 1) =~= names.take(i as int).push(label@));
        i += 1;
    }
    assert(names.take(report.sources@.len() as int) =~= names);
    let ghost of_sources = text::views(found@);
    proof {
        lemma_details_of_faults(report.sources@, texts, report.sources@.len() as int);
    }
    if let Some(cadence) = &report.cadence {
        let ghost before = labels@;
        labels.push("container-vs-capture rate".to_owned());
        assert(text::views(labels@) =~= text::views(before).push("container-vs-capture rate"@));
        if cadence.is_broken() {
            if let Some(f) = figures {
                let detail = cadence.describe(f);
                found.push(detail);
                assert(text::views(found@) =~= of_sources.push(detail@));
            }
        }
    }
    assert(text::views(found@).len() == found@.len());
    if found.len() > 0 {
        let mut line = text::joined("BROKEN  ", path);
        line.append("  (");
        line.append(text::join(&found, "; ").as_str());
        line.append(")");
        Line { text: line, flagged: true }
    } else {
        let mut line = text::joined("OK      ", path);
        line.append("  (");
        line.append(text::decimal(report.num_frames() as u64).as_str());
        line.append(" samples; checked: ");
        line.append(text::join(&labels, ", ").as_str());
        line.append(")");
        Line { text: line, flagged: false }
    }
}

/// The line for a file that could not be checked.
pub fn unknown_line(path: &str, error: &str) -> (line: Line)
    ensures
        line.flagged,
        line.text@ == "UNKNOWN "@ + path@ + "  (could not analyze: "@ + error@ + ")"@,
{
    let mut line = text::joined("UNKNOWN ", path);
    line.append("  (could not analyze: ");
    line.append(error);
    line.append(")");
    Line { text: line, flagged: true }
}

/// The two series span times that differ by more than half a frame, a frame being
/// the exact mean interval of the captured times.
pub open spec fn rates_differ(container: Seq<LoadedFrame>, sei: Seq<LoadedFrame>) -> bool {
    let captured = timing::span(sei);
    let played = timing::span(container);
    let drift = if played < captured {
        captured - played
    } else {
        played - captured
    };
    &&& container.len() == sei.len()
    &&& sei.len() >= 2
    &&& captured > 0
    &&& 2 * drift * (sei.len() - 1) > captured
}

/// A file is reported broken exactly when one of its timing series steps back in
/// display order, or its container plays at another rate than it was captured.
pub proof fn broken_means_order_or_rate_is_wrong(
    report: FileReport,
    container: Option<Seq<LoadedFrame>>,
    sei: Option<Seq<LoadedFrame>>,
)
    requires
        reports(report, container, sei),
    ensures
        report.faulty() <==> {
            ||| container matches Some(c) && !timing::non_decreasing(timing::display_times(c))
            ||| sei matches Some(s) && !timing::non_decreasing(timing::display_times(s))
            ||| container matches Some(c) && sei matches Some(s) && rates_differ(c, s)
        },
{
    let list = report.sources@;
    if let Some(c) = container {
        timing::broken_means_out_of_display_order(list[0].analysis, c);
        if let Some(s) = sei {
            timing::broken_means_out_of_display_order(list[1].analysis, s);
            if let Some(cadence) = report.cadence {
                timing::broken_means_more_than_half_a_frame(cadence, s.len() as int);
            }
        }
    } else if let Some(s) = sei {
        timing::broken_means_out_of_display_order(list[0].analysis, s);
    }
}

/// The two timing sources have names of their own.
pub proof fn sources_are_told_apart()
    ensures
        TimingSource::Container.name() == "container (stts/ctts)"@,
        TimingSource::Sei.name() == "precision-timestamp SEI"@,
        TimingSource::Container.name() != TimingSource::Sei.name(),
{
    reveal_strlit("container (stts/ctts)");
    reveal_strlit("precision-timestamp SEI");
    assert(TimingSource::Container.name()[0] != TimingSource::Sei.name()[0]);
}

/// A faulty series is told with its name, how many of how many samples contradict the
/// display order, and by how much at worst.
pub proof fn a_faulty_series_is_told_in_numbers(check: SourceCheck, early_ms: Seq<char>) -> (
    numbers: (Seq<char>, Seq<char>))
    ensures
        text::number_read(numbers.0) == check.analysis.num_inversions,
        text::number_read(numbers.1) == check.analysis.num_frames,
        source_detail(check, early_ms) == check.source.name() + ": "@ + numbers.0 + " of "@
            + numbers.1 + " samples inconsistent with bitstream POC order, up to "@ + early_ms
            + "ms early"@,
{
    text::written_number_reads_back(check.analysis.num_inversions as nat);
    text::written_number_reads_back(check.analysis.num_frames as nat);
    (
        text::decimal_text(check.analysis.num_inversions as nat),
        text::decimal_text(check.analysis.num_frames as nat),
    )
}

proof fn lemma_details_tell_faults(sources: Seq<SourceCheck>, early_ms: Seq<Seq<char>>, n: int)
    requires
        0 <= n <= sources.len(),
    ensures
        forall|i: int|
            0 <= i < n && (#[trigger] sources[i]).analysis.num_inversions > 0 ==> source_details(
                sources,
                early_ms,
                n,
            ).contains(source_detail(sources[i], early_ms[i])),
        forall|k: int|
            0 <= k < source_details(sources, early_ms, n).len() ==> exists|i: int|
                0 <= i < n && (#[trigger] sources[i]).analysis.num_inversions > 0
                    && #[trigger] source_details(sources, early_ms, n)[k] == source_detail(
                    sources[i],
                    early_ms[i],
                ),
    decreases n,
{
    if n > 0 {
        lemma_details_tell_faults(sources, early_ms, n - 1);
        let earlier = source_details(sources, early_ms, n - 1);
        let now = source_details(sources, early_ms, n);
        assert forall|i: int| 0 <= i < n && (#[trigger] sources[i]).analysis.num_inversions
            > 0 implies now.contains(source_detail(sources[i], early_ms[i])) by {
            if i < n - 1 {
                assert(earlier.contains(source_detail(sources[i], early_ms[i])));
                let k = choose|k: int|
                    0 <= k < earlier.len() && earlier[k] == source_detail(sources[i], early_ms[i]);
                assert(now[k] == earlier[k]);
            } else {
                assert(now[earlier.len() as int] == source_detail(sources[i], early_ms[i]));
            }
        }
        assert forall|k: int| 0 <= k < now.len() implies exists|i: int|
            0 <= i < n && (#[trigger] sources[i]).analysis.num_inversions > 0 && #[trigger] now[k]
                == source_detail(sources[i], early_ms[i]) by {
            if k < earlier.len() {
                assert(now[k] == earlier[k]);
                let i = choose|i: int|
                    0 <= i < n - 1 && (#[trigger] sources[i]).analysis.num_inversions > 0
                        && earlier[k] == source_detail(sources[i], early_ms[i]);
                assert(sources[i].analysis.num_inversions > 0);
            } else {
                assert(sources[n - 1].analysis.num_inversions > 0);
            }
        }
    }
}

/// `told` is about a series with an inversion or about a wrong rate.
pub open spec fn tells_fault(
    report: FileReport,
    early_ms: Seq<Seq<char>>,
    figures: Option<CadenceFigures>,
    told: Seq<char>,
) -> bool {
    ||| exists|i: int|
        0 <= i < report.sources@.len() && (#[trigger] report.sources@[i]).analysis.num_inversions
            > 0 && told == source_detail(report.sources@[i], early_ms[i])
    ||| report.cadence matches Some(c) && c.broken() && told == c.description(figures->0)
}

/// Every fault of a file is told, each series with an inversion and a wrong rate, and
/// nothing that is none.
pub proof fn every_fault_is_told(
    report: FileReport,
    early_ms: Seq<Seq<char>>,
    figures: Option<CadenceFigures>,
)
    ensures
        forall|i: int|
            0 <= i < report.sources@.len() && (#[trigger] report.sources@[i]).analysis.num_inversions
                > 0 ==> details(report, early_ms, figures).contains(
                source_detail(report.sources@[i], early_ms[i]),
            ),
        report.cadence matches Some(c) ==> c.broken() ==> details(
            report,
            early_ms,
            figures,
        ).contains(c.description(figures->0)),
        forall|k: int|
            0 <= k < details(report, early_ms, figures).len() ==> tells_fault(
                report,
                early_ms,
                figures,
                #[trigger] details(report, early_ms, figures)[k],
            ),
{
    let sources = report.sources@;
    let n = sources.len() as int;
    lemma_details_tell_faults(sources, early_ms, n);
    let list = source_details(sources, early_ms, n);
    let all = details(report, early_ms, figures);
    assert forall|i: int| 0 <= i < n && (#[trigger] sources[i]).analysis.num_inversions
        > 0 implies all.contains(source_detail(sources[i], early_ms[i])) by {
        assert(list.contains(source_detail(sources[i], early_ms[i])));
        let k = choose|k: int|
            0 <= k < list.len() && list[k] == source_detail(sources[i], early_ms[i]);
        assert(all[k] == list[k]);
    }
    if report.off_rate() {
        assert(all[list.len() as int] == (report.cadence->0).description(figures->0));
    }
    assert forall|k: int| 0 <= k < all.len() implies tells_fault(
        report,
        early_ms,
        figures,
        #[trigger] all[k],
    ) by {
        if k < list.len() {
            assert(all[k] == list[k]);
        }
    }
}

/// The line of a file is flagged as broken, at its start, exactly when there is a fault
/// to tell, and then tells all of them; otherwise it tells the number of samples and
/// everything that was checked.
pub proof fn a_line_tells_faults_or_what_was_checked(
    path: Seq<char>,
    report: FileReport,
    early_ms: Seq<Seq<char>>,
    figures: Option<CadenceFigures>,
) -> (number: Seq<char>)
    ensures
        details(report, early_ms, figures).len() > 0 ==> report.faulty() && report_text(
            path,
            report,
            early_ms,
            figures,
        ) == "BROKEN  "@ + path + "  ("@ + text::join_text(
            details(report, early_ms, figures),
            "; "@,
        ) + ")"@,
        details(report, early_ms, figures).len() == 0 ==> !report.faulty() && report_text(
            path,
            report,
            early_ms,
            figures,
        ) == "OK      "@ + path + "  ("@ + number + " samples; checked: "@ + text::join_text(
            checked(report),
            ", "@,
        ) + ")"@,
        report.sources@.len() > 0 ==> text::number_read(number)
            == report.sources@[0].analysis.num_frames,
        report.sources@.len() == 0 ==> text::number_read(number) == 0,
        checked(report).len() == report.sources@.len() + if report.cadence is Some {
            1int
        } else {
            0int
        },
        forall|i: int|
            0 <= i < report.sources@.len() ==> #[trigger] checked(report)[i]
                == report.sources@[i].source.name(),
        report.cadence is Some ==> checked(report).last() == "container-vs-capture rate"@,
{
    lemma_details_of_faults(report.sources@, early_ms, report.sources@.len() as int);
    text::written_number_reads_back(report.frames());
    text::decimal_text(report.frames())
}

/// One frame comes before another in display order and is stamped later.
pub open spec fn frames_contradict(frames: Seq<LoadedFrame>) -> bool {
    exists|i: int, j: int|
        #![trigger frames[i], frames[j]]
        0 <= i < frames.len() && 0 <= j < frames.len() && frames[i].pts_ns > frames[j].pts_ns && (
        frames[i].cvs < frames[j].cvs || (frames[i].cvs == frames[j].cvs && frames[i].poc
            < frames[j].poc) || (frames[i].cvs == frames[j].cvs && frames[i].poc == frames[j].poc
            && i < j))
}

/// A file is faulty exactly when two frames of a timing series contradict each other, or
/// the two series span times that differ by more than half a mean capture interval.
pub proof fn faulty_means_frames_or_rates_contradict(
    report: FileReport,
    container: Option<Seq<LoadedFrame>>,
    sei: Option<Seq<LoadedFrame>>,
)
    requires
        reports(report, container, sei),
    ensures
        report.faulty() <==> {
            ||| container matches Some(c) && frames_contradict(c)
            ||| sei matches Some(s) && frames_contradict(s)
            ||| container matches Some(c) && sei matches Some(s) && c.len() == s.len() && s.len()
                >= 2 && timing::span(s) > 0 && (2 * (timing::span(c) - timing::span(s)) * (s.len()
                - 1) > timing::span(s) || 2 * (timing::span(s) - timing::span(c)) * (s.len() - 1)
                > timing::span(s))
        },
{
    let list = report.sources@;
    if let Some(c) = container {
        timing::broken_means_two_frames_contradict(list[0].analysis, c);
        if let Some(s) = sei {
            timing::broken_means_two_frames_contradict(list[1].analysis, s);
            if let Some(cadence) = report.cadence {
                timing::off_by_half_a_frame_on_either_side(cadence, s.len() as int);
            }
        }
    } else if let Some(s) = sei {
        timing::broken_means_two_frames_contradict(list[0].analysis, s);
    }
}

/// The message for a file without any timing holds its whole path.
pub proof fn files_without_timing_are_named(path: Seq<char>)
    ensures
        nothing_to_check(path) == "\""@ + path
            + "\" has no per-frame precision-timestamp SEI and no container timing, so there is nothing for this tool to check"@,
{
}

/// A report has the container's series first and the captured times second, each with
/// all its frames, and compares rates only where there are both.
pub proof fn a_report_holds_each_series(
    report: FileReport,
    container: Option<Seq<LoadedFrame>>,
    sei: Option<Seq<LoadedFrame>>,
)
    requires
        reports(report, container, sei),
    ensures
        container matches Some(c) ==> report.sources@.len() > 0 && report.sources@[0].source
            == TimingSource::Container && report.sources@[0].analysis.num_frames == c.len(),
        sei matches Some(s) ==> report.sources@.len() > 0 && report.sources@.last().source
            == TimingSource::Sei && report.sources@.last().analysis.num_frames == s.len(),
        report.sources@.len() == (if container is Some {
            1int
        } else {
            0int
        }) + (if sei is Some {
            1int
        } else {
            0int
        }),
        report.cadence is Some ==> container is Some && sei is Some,
        report.cadence matches Some(c) ==> c.container_span_ns == timing::span(container->0)
            && c.sei_span_ns == timing::span(sei->0),
{
}

} // verus!
