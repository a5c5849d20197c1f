//! A run of ffmpeg: what to do next, given what has happened.
//!
//! The caller starts the process, reads its output and waits for it; `FfmpegRun` decides.

use crate::error::Error;
use crate::text::{chars_of, last_lines, parse_trimmed, starts_with};
use vstd::prelude::*;

verus! {

/// How far a run has come.
#[derive(Clone, Copy, Debug, PartialEq, Eq, Structural)]
pub enum RunState {
    /// The process is being started.
    Starting,
    /// The process is running, and its output is being read.
    Reading,
    /// The output has ended, and the process is to end too.
    Waiting,
    Finished,
}

/// What has happened.
#[derive(Debug)]
pub enum RunEvent {
    /// The process runs, and its output and its messages can be read.
    Spawned,
    /// The process could not be started, for this reason.
    SpawnFailed(String),
    NoStdout,
    NoStderr,
    /// A line of output was read.
    Line(String),
    EndOfOutput,
    /// The caller asked for the run to stop.
    Cancelled,
    /// Reading the output, or waiting for the process, failed.
    IoFailed,
    /// The process ended, with this status and after these messages.
    Exited { success: bool, status: String, stderr: String },
}

/// What is to be done.
#[derive(Debug)]
pub enum RunAction {
    /// Read the next line, or learn that the run is cancelled.
    Read,
    /// Report that `frame` of `total` frames are done, and then read on.
    Report { frame: u32, total: u32 },
    /// Wait for the process to end, and collect its messages.
    Wait,
    /// Kill the process, and fail with the error.
    Kill(Error),
    /// Report that all of `total` frames are done, and succeed.
    Complete { total: u32 },
    Fail(Error),
    /// Fail with the error that the operation gave.
    FailIo,
}

/// An action, its texts taken as sequences of characters.
pub enum RunActionView {
    Read,
    Report { frame: u32, total: u32 },
    Wait,
    Kill(crate::error::ErrorView),
    Complete { total: u32 },
    Fail(crate::error::ErrorView),
    FailIo,
}

impl View for RunAction {
    type V = RunActionView;

    open spec fn view(&self) -> RunActionView {
        match *self {
            RunAction::Read => RunActionView::Read,
            RunAction::Report { frame, total } => RunActionView::Report { frame, total },
            RunAction::Wait => RunActionView::Wait,
            RunAction::Kill(error) => RunActionView::Kill(error@),
            RunAction::Complete { total } => RunActionView::Complete { total },
            RunAction::Fail(error) => RunActionView::Fail(error@),
            RunAction::FailIo => RunActionView::FailIo,
        }
    }
}

/// The number of finished frames that a line of ffmpeg's progress output tells, `total` at most;
/// `None` for a line that tells none.
pub open spec fn progress(line: Seq<char>, total: u32) -> Option<u32> {
    if "frame="@.is_prefix_of(line) {
        match crate::text::parsed_u32(crate::text::trimmed(line.skip(6))) {
            Some(frame) => Some(if frame <= total { frame } else { total }),
            None => None,
        }
    } else {
        None
    }
}

/// The number of finished frames that a line of progress output tells.
pub fn progress_frame(line: &str, total: u32) -> (frame: Option<u32>)
    ensures
        frame == progress(line@, total),
        frame is Some ==> line@.len() > 6 && line@.take(6) == "frame="@,
{
    let chars = chars_of(line);
    proof {
        reveal_strlit("frame=");
    }
    if !starts_with(&chars, "frame=") {
        return None;
    }
    proof {
        assert(line@.take(6) =~= line@.subrange(0, 6));
        if line@.len() == 6 {
            assert(line@.skip(6) =~= Seq::<char>::empty());
            assert(crate::text::trimmed(line@.skip(6)).len() == 0);
        }
    }
    match parse_trimmed(&chars, 6) {
        Some(frame) => Some(if frame <= total { frame } else { total }),
        None => None,
    }
}

/// The message for a process that failed: its status, and the last of the lines that it wrote.
pub open spec fn failure_message(status: Seq<char>, stderr: Seq<char>) -> Seq<char> {
    "ffmpeg exited with status "@ + status + "\n"@ + crate::text::joined(
        crate::text::last_of(crate::text::lines(stderr), 10),
    )
}

/// Appends a line to the messages of a process.
pub fn append_line(log: &mut String, line: &str)
    ensures
        final(log)@ == old(log)@ + line@ + "\n"@,
{
    log.append(line);
    log.append("\n");
}

/// Whether an event can happen in a state.
pub open spec fn admissible(state: RunState, event: RunEvent) -> bool {
    match event {
        RunEvent::Spawned => state == RunState::Starting,
        RunEvent::SpawnFailed(_) => state == RunState::Starting,
        RunEvent::NoStdout => state == RunState::Starting,
        RunEvent::NoStderr => state == RunState::Starting,
        RunEvent::Line(_) => state == RunState::Reading,
        RunEvent::EndOfOutput => state == RunState::Reading,
        RunEvent::Cancelled => state == RunState::Reading,
        RunEvent::IoFailed => state == RunState::Reading || state == RunState::Waiting,
        RunEvent::Exited { .. } => state == RunState::Waiting,
    }
}

/// The state after an event.
pub open spec fn next_state(event: RunEvent) -> RunState {
    match event {
        RunEvent::Spawned => RunState::Reading,
        RunEvent::Line(_) => RunState::Reading,
        RunEvent::EndOfOutput => RunState::Waiting,
        _ => RunState::Finished,
    }
}

/// What an event is answered with.
pub open spec fn answer(event: RunEvent, total: u32) -> RunActionView {
    match event {
        RunEvent::Spawned => RunActionView::Read,
        RunEvent::SpawnFailed(why) => RunActionView::Fail(
            crate::error::ErrorView::FFmpeg("Failed to spawn ffmpeg (is it installed?): "@ + why@),
        ),
        RunEvent::NoStdout => RunActionView::Fail(
            crate::error::ErrorView::FFmpeg("Failed to capture ffmpeg stdout"@),
        ),
        RunEvent::NoStderr => RunActionView::Fail(
            crate::error::ErrorView::FFmpeg("Failed to capture ffmpeg stderr"@),
        ),
        RunEvent::Line(line) => match progress(line@, total) {
            Some(frame) => RunActionView::Report { frame, total },
            None => RunActionView::Read,
        },
        RunEvent::EndOfOutput => RunActionView::Wait,
        RunEvent::Cancelled => RunActionView::Kill(crate::error::ErrorView::Cancelled),
        RunEvent::IoFailed => RunActionView::FailIo,
        RunEvent::Exited { success, status, stderr } => if success {
            RunActionView::Complete { total }
        } else {
            RunActionView::Fail(
                crate::error::ErrorView::FFmpeg(failure_message(status@, stderr@)),
            )
        },
    }
}

/// A run of ffmpeg on a number of images.
#[derive(Debug)]
pub struct FfmpegRun {
    pub image_count: u32,
    pub state: RunState,
}

impl FfmpegRun {
    pub fn new(image_count: u32) -> (run: FfmpegRun)
        ensures
            run.image_count == image_count,
            run.state == RunState::Starting,
    {
        FfmpegRun { image_count, state: RunState::Starting }
    }

    /// Takes note of an event and says what is to be done.
    pub fn step(&mut self, event: RunEvent) -> (action: RunAction)
        requires
            admissible(old(self).state, event),
        ensures
            final(self).image_count == old(self).image_count,
            final(self).state == next_state(event),
            action@ == answer(event, old(self).image_count),
    {
        let total: u32 = self.image_count;
        match event {
            RunEvent::Spawned => {
                self.state = RunState::Reading;
                RunAction::Read
            },
            RunEvent::SpawnFailed(why) => {
                self.state = RunState::Finished;
                let mut message = "Failed to spawn ffmpeg (is it installed?): ".to_owned();
                message.append(why.as_str());
                RunAction::Fail(Error::FFmpeg(message))
            },
            RunEvent::NoStdout => {
                self.state = RunState::Finished;
                RunAction::Fail(Error::FFmpeg("Failed to capture ffmpeg stdout".to_owned()))
            },
            RunEvent::NoStderr => {
                self.state = RunState::Finished;
                RunAction::Fail(Error::FFmpeg("Failed to capture ffmpeg stderr".to_owned()))
            },
            RunEvent::Line(line) => {
                self.state = RunState::Reading;
                match progress_frame(line.as_str(), total) {
                    Some(frame) => RunAction::Report { frame, total },
                    None => RunAction::Read,
                }
            },
            RunEvent::EndOfOutput => {
                self.state = RunState::Waiting;
                RunAction::Wait
            },
            RunEvent::Cancelled => {
                self.state = RunState::Finished;
                RunAction::Kill(Error::Cancelled)
            },
            RunEvent::IoFailed => {
                self.state = RunState::Finished;
                RunAction::FailIo
            },
            RunEvent::Exited { success, status, stderr } => {
                self.state = RunState::Finished;
                if success {
                    RunAction::Complete { total }
                } else {
                    let mut message = "ffmpeg exited with status ".to_owned();
                    message.append(status.as_str());
                    message.append("\n");
                    message.append(last_lines(stderr.as_str(), 10).as_str());
                    RunAction::Fail(Error::FFmpeg(message))
                }
            },
        }
    }
}

/// The state after a number of events; `None` where one of them could not happen.
pub open spec fn state_after(events: Seq<RunEvent>) -> Option<RunState>
    decreases events.len(),
{
    if events.len() == 0 {
        Some(RunState::Starting)
    } else {
        match state_after(events.drop_last()) {
            Some(state) if admissible(state, events.last()) => Some(next_state(events.last())),
            _ => None,
        }
    }
}

/// A frame number that ffmpeg writes, with any white space around it, is understood, and is
/// reported as far as there are frames.
pub proof fn progress_is_understood(before: Seq<char>, frame: u32, after: Seq<char>, total: u32)
    requires
        crate::text::all_white(before),
        crate::text::all_white(after),
    ensures
        progress("frame="@ + before + crate::text::decimal(frame as nat) + after, total) == Some(
            if frame <= total {
                frame
            } else {
                total
            },
        ),
{
    reveal_strlit("frame=");
    let numeral = crate::text::decimal(frame as nat);
    let line = "frame="@ + before + numeral + after;
    crate::text::decimal_denotes_its_number(frame as nat);
    crate::text::parsing_inverts_decimal(frame);
    assert(crate::text::is_digit(numeral[0]));
    assert(crate::text::is_digit(numeral[numeral.len() - 1]));
    crate::text::trimming_undoes_padding(before, numeral, after);
    assert(line.skip(6) =~= before + numeral + after);
}

/// What is reported never exceeds the number of images, and the total that is reported with it
/// is the number of images.
pub proof fn reports_stay_within_total(event: RunEvent, total: u32)
    ensures
        answer(event, total) matches RunActionView::Report { frame, total: reported } ==> {
            &&& frame <= reported
            &&& reported == total
        },
        answer(event, total) matches RunActionView::Complete { total: reported } ==> reported
            == total,
{
}

/// A run succeeds exactly when its process ended with success; it is killed exactly when it was
/// cancelled, and then fails as cancelled.
pub proof fn success_and_kill_have_one_cause(event: RunEvent, total: u32)
    ensures
        answer(event, total) is Complete <==> (event matches RunEvent::Exited { success, .. }
            && success),
        answer(event, total) is Kill <==> event is Cancelled,
        answer(event, total) matches RunActionView::Kill(error) ==> error
            == crate::error::ErrorView::Cancelled,
{
}

/// A run goes on reading after a report, waits once the output has ended, and is finished after
/// every other answer.
pub proof fn answers_fit_the_state(event: RunEvent, total: u32)
    ensures
        next_state(event) == RunState::Reading <==> answer(event, total) is Read || answer(
            event,
            total,
        ) is Report,
        next_state(event) == RunState::Waiting <==> answer(event, total) is Wait,
        next_state(event) != RunState::Starting,
{
}

/// Nothing happens after a run has finished.
pub proof fn finished_runs_stay_finished(events: Seq<RunEvent>, event: RunEvent)
    requires
        state_after(events) == Some(RunState::Finished),
    ensures
        state_after(events.push(event)) is None,
{
    assert(events.push(event).drop_last() =~= events);
}

/// A run that succeeded had read all of its output before.
pub proof fn success_comes_after_the_output(events: Seq<RunEvent>)
    requires
        events.len() > 0,
        state_after(events) is Some,
        events.last() is Exited,
    ensures
        events.len() >= 3,
        events[0] is Spawned,
        events[events.len() - 2] is EndOfOutput,
{
    let before = events.drop_last();
    assert(state_after(before) == Some(RunState::Waiting));
    assert(before.len() > 0);
    assert(before.last() == events[events.len() - 2]);
    lemma_first_event(events);
    lemma_first_event(before);
    assert(state_after(before.drop_last()) == Some(RunState::Reading));
    assert(before.drop_last().len() > 0);
}

/// A run that came further than its first event was spawned.
proof fn lemma_first_event(events: Seq<RunEvent>)
    requires
        events.len() > 1,
        state_after(events) is Some,
    ensures
        events[0] is Spawned,
    decreases events.len(),
{
    let before = events.drop_last();
    assert(state_after(before) is Some);
    if before.len() > 1 {
        lemma_first_event(before);
        assert(before[0] == events[0]);
    } else {
        assert(before.drop_last().len() == 0);
        assert(state_after(before.drop_last()) == Some(RunState::Starting));
        assert(before.last() == events[0]);
    }
}

/// The message for a process that failed quotes ten lines at most.
pub proof fn failure_quotes_ten_lines(stderr: Seq<char>)
    ensures
        crate::text::last_of(crate::text::lines(stderr), 10).len() <= 10,
{
}

/// A line tells progress exactly when it starts with `frame=` and what follows, without the white
/// space around it, is a number of 32 bits; the number is reported, or the total where it is
/// larger.
pub proof fn only_frame_lines_tell_progress(line: Seq<char>, total: u32)
    ensures
        progress(line, total) is Some <==> line.len() >= 6 && line.take(6) == seq![
            'f',
            'r',
            'a',
            'm',
            'e',
            '=',
        ] && crate::text::parsed_u32(crate::text::trimmed(line.skip(6))) is Some,
        progress(line, total) matches Some(frame) ==> crate::text::parsed_u32(
            crate::text::trimmed(line.skip(6)),
        ) matches Some(number) && frame <= number && frame <= total && (frame == number || frame
            == total),
{
    reveal_strlit("frame=");
    let word = seq!['f', 'r', 'a', 'm', 'e', '='];
    assert("frame="@ =~= word);
    if line.len() >= 6 && line.take(6) == word {
        assert(line.subrange(0, 6) =~= line.take(6));
        assert(word.is_prefix_of(line));
    }
    if word.is_prefix_of(line) {
        assert(line.take(6) =~= line.subrange(0, 6));
    }
}

/// How a line that tells progress is written: `frame=`, white space, perhaps a plus sign, digits,
/// white space.
pub proof fn progress_was_written(line: Seq<char>, total: u32) -> (parts: (
    Seq<char>,
    Seq<char>,
    Seq<char>,
))
    requires
        progress(line, total) is Some,
    ensures
        ({
            let (before, digits, after) = parts;
            let word = seq!['f', 'r', 'a', 'm', 'e', '='];
            let number = crate::text::numeral_value(digits);
            &&& line == word + before + digits + after || line == word + before + (seq!['+']
                + digits) + after
            &&& forall|i: int| 0 <= i < before.len() ==> crate::text::white_space(#[trigger] before[i])
            &&& forall|i: int| 0 <= i < after.len() ==> crate::text::white_space(#[trigger] after[i])
            &&& digits.len() > 0
            &&& forall|i: int| 0 <= i < digits.len() ==> '0' <= #[trigger] digits[i] <= '9'
            &&& progress(line, total)->0 == if number <= total {
                number as int
            } else {
                total as int
            }
        }),
{
    only_frame_lines_tell_progress(line, total);
    let rest = line.skip(6);
    let (start, end) = crate::text::trimming_cuts_white_space_only(rest);
    let numeral = crate::text::trimmed(rest);
    let digits = crate::text::what_is_parsed_is_a_numeral(numeral);
    let (before, after) = (rest.take(start), rest.skip(end));
    assert(line =~= line.take(6) + before + numeral + after);
    (before, digits, after)
}

/// A line that does not start with `frame=` is read over: nothing is reported.
pub proof fn other_lines_are_read_over(line: String, total: u32)
    requires
        line@.len() < 6 || line@.take(6) != seq!['f', 'r', 'a', 'm', 'e', '='],
    ensures
        progress(line@, total) is None,
        answer(RunEvent::Line(line), total) == RunActionView::Read,
        next_state(RunEvent::Line(line)) == RunState::Reading,
{
    only_frame_lines_tell_progress(line@, total);
}

/// What is reported is what the line tells, and a line that tells nothing is read over.
pub proof fn lines_are_reported_as_they_tell(line: String, total: u32)
    ensures
        progress(line@, total) matches Some(told) ==> answer(RunEvent::Line(line), total) == (
        RunActionView::Report { frame: told, total }),
        progress(line@, total) is None ==> answer(RunEvent::Line(line), total)
            == RunActionView::Read,
{
}

/// The message for a process that failed names its status and then quotes the lines that it
/// wrote: all of them up to ten, else the last ten.
pub proof fn failure_quotes_what_was_written(status: Seq<char>, written: Seq<Seq<char>>)
    requires
        forall|i: int|
            0 <= i < written.len() ==> crate::text::is_clean_line(#[trigger] written[i]),
    ensures
        written.len() <= 10 ==> failure_message(status, crate::text::terminated(written))
            == "ffmpeg exited with status "@ + status + "\n"@ + crate::text::joined(written),
        written.len() > 10 ==> failure_message(status, crate::text::terminated(written))
            == "ffmpeg exited with status "@ + status + "\n"@ + crate::text::joined(
            written.skip(written.len() - 10),
        ),
{
    crate::text::reading_inverts_writing(written);
}

/// The message depends on the messages of the process through their lines alone.
pub proof fn failure_quotes_lines(status: Seq<char>, stderr: Seq<char>)
    ensures
        ({
            let all = crate::text::lines(stderr);
            let quoted = if all.len() <= 10 {
                all
            } else {
                all.skip(all.len() - 10)
            };
            failure_message(status, stderr) == "ffmpeg exited with status "@ + status + "\n"@
                + crate::text::joined(quoted)
        }),
{
}

/// What can happen in each state, and where it leads.
pub proof fn runs_go_step_by_step(event: RunEvent)
    ensures
        admissible(RunState::Starting, event) <==> event is Spawned || event is SpawnFailed
            || event is NoStdout || event is NoStderr,
        admissible(RunState::Reading, event) <==> event is Line || event is EndOfOutput
            || event is Cancelled || event is IoFailed,
        admissible(RunState::Waiting, event) <==> event is IoFailed || event is Exited,
        !admissible(RunState::Finished, event),
        next_state(event) == RunState::Reading <==> event is Spawned || event is Line,
        next_state(event) == RunState::Waiting <==> event is EndOfOutput,
        next_state(event) == RunState::Finished <==> event is SpawnFailed || event is NoStdout
            || event is NoStderr || event is Cancelled || event is IoFailed || event is Exited,
{
}

/// Every way to fail has its own message.
pub proof fn failures_say_why(why: String, status: String, stderr: String, total: u32)
    ensures
        answer(RunEvent::SpawnFailed(why), total) == RunActionView::Fail(
            crate::error::ErrorView::FFmpeg("Failed to spawn ffmpeg (is it installed?): "@ + why@),
        ),
        answer(RunEvent::NoStdout, total) == RunActionView::Fail(
            crate::error::ErrorView::FFmpeg("Failed to capture ffmpeg stdout"@),
        ),
        answer(RunEvent::NoStderr, total) == RunActionView::Fail(
            crate::error::ErrorView::FFmpeg("Failed to capture ffmpeg stderr"@),
        ),
        answer(RunEvent::IoFailed, total) == RunActionView::FailIo,
        answer(RunEvent::Cancelled, total) == RunActionView::Kill(
            crate::error::ErrorView::Cancelled,
        ),
        answer(RunEvent::Exited { success: false, status, stderr }, total) == RunActionView::Fail(
            crate::error::ErrorView::FFmpeg(failure_message(status@, stderr@)),
        ),
        answer(RunEvent::Exited { success: true, status, stderr }, total) == (
        RunActionView::Complete { total }),
        answer(RunEvent::Spawned, total) == RunActionView::Read,
        answer(RunEvent::EndOfOutput, total) == RunActionView::Wait,
{
}

/// The view of an action keeps its numbers and its error.
pub proof fn views_keep_the_actions(frame: u32, total: u32, error: Error)
    ensures
        (RunAction::Report { frame, total })@ == (RunActionView::Report { frame, total }),
        (RunAction::Complete { total })@ == (RunActionView::Complete { total }),
        RunAction::Kill(error)@ == RunActionView::Kill(error@),
        RunAction::Fail(error)@ == RunActionView::Fail(error@),
        RunAction::Read@ == RunActionView::Read,
        RunAction::Wait@ == RunActionView::Wait,
        RunAction::FailIo@ == RunActionView::FailIo,
{
}

} // verus!
