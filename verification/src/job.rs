//! A timelapse from beginning to end: list the directory, write the list of frames, run ffmpeg,
//! remove the list.
//!
//! The caller does the work on files and processes; `Job` says what comes next.

use crate::concat::concat_content;
use crate::error::Error;
use crate::selection::image_order;
use vstd::prelude::*;

verus! {

/// The names of a directory's entries: the bytes by which they are told apart and ordered, and
/// the text by which they are written down.
#[derive(Debug)]
pub struct Listing {
    pub names: Vec<Vec<u8>>,
    pub texts: Vec<String>,
}

/// What is to be compiled.
#[derive(Debug)]
pub struct Plan {
    /// The entries that are images, in the order of their frames.
    pub order: Vec<usize>,
    /// The number of images.
    pub image_count: u32,
    /// The content of the list of frames.
    pub concat: String,
}

impl Plan {
    /// Whether this is the plan for a directory, with images shown for `duration` seconds.
    pub open spec fn compiles(self, listing: Listing, duration: Seq<char>) -> bool {
        &&& crate::selection::lists_images(listing.names@, self.order@)
        &&& self.order@.len() > 0
        &&& self.image_count == self.order@.len() % 0x1_0000_0000
        &&& self.concat@ == crate::concat::concat_list(
            crate::concat::texts_at(listing.texts@, self.order@),
            duration,
        )
    }
}

/// Whether a directory has no image.
pub open spec fn has_no_image(names: Seq<Vec<u8>>) -> bool {
    forall|i: int| 0 <= i < names.len() ==> !crate::selection::is_jpg(#[trigger] names[i]@)
}

/// The plan for a directory; an error where it has no image.
pub fn plan(listing: &Listing, duration: &str) -> (plan: Result<Plan, Error>)
    requires
        listing.names@.len() == listing.texts@.len(),
    ensures
        match plan {
            Ok(plan) => plan.compiles(*listing, duration@),
            Err(error) => {
                &&& has_no_image(listing.names@)
                &&& error@ == crate::error::ErrorView::VideoCompilation(
                    "No images found in input directory"@,
                )
            },
        },
{
    let order = image_order(&listing.names);
    if order.len() == 0 {
        proof {
            assert(listing.names.len() == listing.names@.len());
            assert forall|i: int| 0 <= i < listing.names@.len() implies
                !crate::selection::is_jpg(#[trigger] listing.names@[i]@) by {
                if crate::selection::is_jpg(listing.names@[i]@) {
                    assert(crate::selection::is_jpg(listing.names@[(i as usize) as int]@));
                    assert(order@.contains(i as usize));
                }
            }
        }
        return Err(Error::VideoCompilation("No images found in input directory".to_owned()));
    }
    let count: u64 = order.len() as u64;
    let image_count: u32 = (count % 0x1_0000_0000) as u32;
    let concat = concat_content(&listing.texts, &order, duration);
    Ok(Plan { order, image_count, concat })
}

/// How far a job has come.
#[derive(Clone, Copy, Debug, PartialEq, Eq, Structural)]
pub enum JobState {
    /// The directory is being listed.
    Listing,
    /// The file for the list of frames is being created.
    Creating,
    /// The list of frames is being written.
    Writing,
    /// ffmpeg is running.
    Running,
    /// The list of frames is being removed, after ffmpeg has ended.
    Cleaning,
    /// The list of frames is being removed, after it could not be written.
    CleaningUnwritten,
    Done,
}

/// What has happened.
#[derive(Debug)]
pub enum JobEvent {
    /// The directory was listed; images are to be shown for `duration` seconds.
    Listed { listing: Listing, duration: String },
    /// The file for the list of frames was created.
    Created,
    /// Listing the directory, or creating the file, failed.
    IoFailed,
    /// The list of frames was written.
    Written,
    /// The file was created, but the list of frames could not be written to it.
    WriteFailed,
    /// ffmpeg has ended, in whatever way.
    RunEnded,
    /// The list of frames was removed, or could not be.
    Removed,
}

/// What is to be done.
#[derive(Debug)]
pub enum JobAction {
    /// Create the file for the list of frames.
    Create(Plan),
    /// Write the list of frames.
    Write,
    /// Run ffmpeg.
    Run,
    /// Remove the list of frames.
    Remove,
    /// Return what the run of ffmpeg gave.
    Return,
    Fail(Error),
    /// Fail with the error that the operation that failed gave.
    FailIo,
}

/// Whether an event can happen in a state.
pub open spec fn admissible(state: JobState, event: JobEvent) -> bool {
    match event {
        JobEvent::Listed { listing, .. } => state == JobState::Listing && listing.names@.len()
            == listing.texts@.len(),
        JobEvent::Created => state == JobState::Creating,
        JobEvent::IoFailed => state == JobState::Listing || state == JobState::Creating,
        JobEvent::Written => state == JobState::Writing,
        JobEvent::WriteFailed => state == JobState::Writing,
        JobEvent::RunEnded => state == JobState::Running,
        JobEvent::Removed => state == JobState::Cleaning || state == JobState::CleaningUnwritten,
    }
}

/// The state after an event.
pub open spec fn next_state(event: JobEvent) -> JobState {
    match event {
        JobEvent::Listed { listing, .. } => if has_no_image(listing.names@) {
            JobState::Done
        } else {
            JobState::Creating
        },
        JobEvent::Created => JobState::Writing,
        JobEvent::IoFailed => JobState::Done,
        JobEvent::Written => JobState::Running,
        JobEvent::WriteFailed => JobState::CleaningUnwritten,
        JobEvent::RunEnded => JobState::Cleaning,
        JobEvent::Removed => JobState::Done,
    }
}

impl JobAction {
    /// Whether this is the answer to an event that happens in a state.
    pub open spec fn answers(self, state: JobState, event: JobEvent) -> bool {
        match event {
            JobEvent::Listed { listing, duration } => if has_no_image(listing.names@) {
                &&& self matches JobAction::Fail(error)
                &&& error@ == crate::error::ErrorView::VideoCompilation(
                    "No images found in input directory"@,
                )
            } else {
                self matches JobAction::Create(plan) && plan.compiles(listing, duration@)
            },
            JobEvent::Created => self == JobAction::Write,
            JobEvent::IoFailed => self == JobAction::FailIo,
            JobEvent::Written => self == JobAction::Run,
            JobEvent::WriteFailed => self == JobAction::Remove,
            JobEvent::RunEnded => self == JobAction::Remove,
            JobEvent::Removed => if state == JobState::CleaningUnwritten {
                self == JobAction::FailIo
            } else {
                self == JobAction::Return
            },
        }
    }
}

/// The compilation of a timelapse.
#[derive(Debug)]
pub struct Job {
    pub state: JobState,
}

impl Job {
    pub fn new() -> (job: Job)
        ensures
            job.state == JobState::Listing,
    {
        Job { state: JobState::Listing }
    }

    /// Takes note of an event and says what is to be done.
    pub fn step(&mut self, event: JobEvent) -> (action: JobAction)
        requires
            admissible(old(self).state, event),
        ensures
            final(self).state == next_state(event),
            action.answers(old(self).state, event),
    {
        match event {
            JobEvent::Listed { listing, duration } => match plan(&listing, duration.as_str()) {
                Ok(plan) => {
                    proof {
                        let first = plan.order@[0];
                        assert(crate::selection::is_jpg(listing.names@[first as int]@));
                    }
                    self.state = JobState::Creating;
                    JobAction::Create(plan)
                },
                Err(error) => {
                    self.state = JobState::Done;
                    JobAction::Fail(error)
                },
            },
            JobEvent::Created => {
                self.state = JobState::Writing;
                JobAction::Write
            },
            JobEvent::IoFailed => {
                self.state = JobState::Done;
                JobAction::FailIo
            },
            JobEvent::Written => {
                self.state = JobState::Running;
                JobAction::Run
            },
            JobEvent::WriteFailed => {
                self.state = JobState::CleaningUnwritten;
                JobAction::Remove
            },
            JobEvent::RunEnded => {
                self.state = JobState::Cleaning;
                JobAction::Remove
            },
            JobEvent::Removed => {
                let unwritten = self.state == JobState::CleaningUnwritten;
                self.state = JobState::Done;
                if unwritten {
                    JobAction::FailIo
                } else {
                    JobAction::Return
                }
            },
        }
    }
}

/// The state after a number of events; `None` where one of them could not happen.
pub open spec fn state_after(events: Seq<JobEvent>) -> Option<JobState>
    decreases events.len(),
{
    if events.len() == 0 {
        Some(JobState::Listing)
    } else {
        match state_after(events.drop_last()) {
            Some(state) if admissible(state, events.last()) => Some(next_state(events.last())),
            _ => None,
        }
    }
}

/// Once the file for the list of frames is there, the job ends only after the file was removed:
/// whether the list could be written to it or not, and in whatever way ffmpeg ended.
pub proof fn list_is_always_removed(events: Seq<JobEvent>, k: int)
    requires
        state_after(events) == Some(JobState::Done),
        0 <= k < events.len(),
        events[k] is Created || events[k] is Written || events[k] is WriteFailed,
    ensures
        events.last() is Removed,
{
    lemma_after_creating(events, k);
}

/// The states that a job can be in once the file for the list of frames is there.
proof fn lemma_after_creating(events: Seq<JobEvent>, k: int)
    requires
        state_after(events) is Some,
        0 <= k < events.len(),
        events[k] is Created || events[k] is Written || events[k] is WriteFailed,
    ensures
        match state_after(events)->0 {
            JobState::Listing => false,
            JobState::Creating => false,
            JobState::Done => events.last() is Removed,
            _ => true,
        },
    decreases events.len(),
{
    if k < events.len() - 1 {
        assert(events.drop_last()[k] == events[k]);
        lemma_after_creating(events.drop_last(), k);
    }
}

/// A job whose list of frames could not be written does nothing but remove the file: ffmpeg is
/// not run, and the job ends with the error of the write.
pub proof fn unwritten_list_is_not_run(events: Seq<JobEvent>, k: int, action: JobAction)
    requires
        state_after(events) == Some(JobState::Done),
        0 <= k < events.len(),
        events[k] is WriteFailed,
        action.answers(state_after(events.drop_last())->0, events.last()),
    ensures
        k == events.len() - 2,
        events.last() is Removed,
        action == JobAction::FailIo,
        forall|i: int|
            0 <= i < events.len() ==> !(#[trigger] events[i] is Written) && !(
            events[i] is RunEnded),
{
    let before = events.drop_last();
    lemma_after_creating(events, k);
    assert(k < events.len() - 1);
    assert(before[k] == events[k]);
    lemma_after_failed_write(before, k);
    assert forall|i: int| 0 <= i < events.len() implies !(#[trigger] events[i] is Written) && !(
    events[i] is RunEnded) by {
        if i < events.len() - 1 {
            assert(before[i] == events[i]);
        }
    }
}

/// After a failed write the file is to be removed, and nothing came of it before.
proof fn lemma_after_failed_write(events: Seq<JobEvent>, k: int)
    requires
        state_after(events) is Some,
        state_after(events)->0 != JobState::Done,
        0 <= k < events.len(),
        events[k] is WriteFailed,
    ensures
        k == events.len() - 1,
        state_after(events)->0 == JobState::CleaningUnwritten,
        forall|i: int|
            0 <= i < events.len() ==> !(#[trigger] events[i] is Written) && !(
            events[i] is RunEnded),
    decreases events.len(),
{
    let before = events.drop_last();
    if k < events.len() - 1 {
        assert(before[k] == events[k]);
        if state_after(before)->0 != JobState::Done {
            lemma_after_failed_write(before, k);
        }
    } else {
        assert(state_after(before) == Some(JobState::Writing));
        lemma_before_writing(before);
        assert forall|i: int| 0 <= i < events.len() implies !(#[trigger] events[i] is Written)
            && !(events[i] is RunEnded) by {
            if i < events.len() - 1 {
                assert(before[i] == events[i]);
            }
        }
    }
}

/// How a job comes to write its list of frames.
proof fn lemma_before_writing(events: Seq<JobEvent>)
    requires
        state_after(events) == Some(JobState::Writing),
    ensures
        events.len() == 2,
        events[0] matches JobEvent::Listed { listing, .. } && !has_no_image(listing.names@),
        events[1] is Created,
{
    let before = events.drop_last();
    assert(events.last() is Created);
    assert(state_after(before) == Some(JobState::Creating));
    assert(before.len() > 0);
    assert(before.last() is Listed);
    assert(state_after(before.drop_last()) == Some(JobState::Listing));
    if before.drop_last().len() > 0 {
        assert(next_state(before.drop_last().last()) != JobState::Listing);
    }
    assert(before.last() == events[0]);
}

/// ffmpeg runs only on a directory that has an image, and only once the list of frames was
/// written.
pub proof fn runs_have_images(events: Seq<JobEvent>)
    requires
        state_after(events) == Some(JobState::Running),
    ensures
        events.len() == 3,
        events[0] matches JobEvent::Listed { listing, .. } && !has_no_image(listing.names@),
        events[1] is Created,
        events[2] is Written,
{
    let before = events.drop_last();
    assert(events.last() is Written);
    lemma_before_writing(before);
    assert(before[0] == events[0]);
    assert(before[1] == events[1]);
}

/// Nothing happens after a job is done.
pub proof fn done_jobs_stay_done(events: Seq<JobEvent>, event: JobEvent)
    requires
        state_after(events) == Some(JobState::Done),
    ensures
        state_after(events.push(event)) is None,
{
    assert(events.push(event).drop_last() =~= events);
}

/// The plan does not depend on the order in which the directory lists its entries, nor on the
/// entries that are no images, as long as an image's name is written down the same way in both.
pub proof fn plan_ignores_listing_order(
    listing: Listing,
    plan: Plan,
    other_listing: Listing,
    other_plan: Plan,
    duration: Seq<char>,
)
    requires
        listing.names@.len() <= usize::MAX,
        other_listing.names@.len() <= usize::MAX,
        crate::selection::images_differ(listing.names@),
        crate::selection::images_differ(other_listing.names@),
        crate::selection::same_images(listing.names@, other_listing.names@),
        forall|i: int, j: int|
            0 <= i < listing.names@.len() && 0 <= j < other_listing.names@.len()
                && crate::selection::is_jpg((#[trigger] listing.names@[i])@) && listing.names@[i]@
                == (#[trigger] other_listing.names@[j])@ ==> listing.texts@[i]@
                == other_listing.texts@[j]@,
        plan.compiles(listing, duration),
        other_plan.compiles(other_listing, duration),
    ensures
        plan.concat@ == other_plan.concat@,
        plan.image_count == other_plan.image_count,
{
    let (a, b) = (plan.order@, other_plan.order@);
    crate::selection::listing_order_does_not_matter(
        listing.names@,
        a,
        other_listing.names@,
        b,
    );
    let (names, others) = (
        crate::selection::names_at(listing.names@, a),
        crate::selection::names_at(other_listing.names@, b),
    );
    assert(names.len() == others.len());
    let texts = crate::concat::texts_at(listing.texts@, a);
    let other_texts = crate::concat::texts_at(other_listing.texts@, b);
    assert forall|i: int| 0 <= i < texts.len() implies texts[i] == other_texts[i] by {
        assert(names[i] == others[i]);
        assert(a[i] < listing.names@.len());
        assert(b[i] < other_listing.names@.len());
        assert(listing.names@[a[i] as int]@ == other_listing.names@[b[i] as int]@);
    }
    assert(texts =~= other_texts);
}

/// Every image of the directory is a frame, and every frame stands in the list at its place: the
/// line for it, unquoted behind the word `file`, is the text of the entry that the order points
/// to. The frames are counted, as far as 32 bits go.
pub proof fn plan_names_every_frame(listing: Listing, plan: Plan, duration: Seq<char>, i: int)
    requires
        plan.compiles(listing, duration),
        0 <= i < plan.order@.len(),
        crate::text::is_clean_line(duration),
        forall|i: int, k: int|
            0 <= i < plan.order@.len() && 0 <= k < listing.texts@[plan.order@[i] as int]@.len()
                ==> #[trigger] listing.texts@[plan.order@[i] as int]@[k] != '\n',
    ensures
        ({
            let lines = crate::text::lines(plan.concat@);
            let text = listing.texts@[plan.order@[i] as int]@;
            &&& lines.len() == 2 * plan.order@.len() - 1
            &&& lines[2 * i] == "file '"@ + crate::concat::escaped(text) + "'"@
            &&& crate::concat::unquoted(lines[2 * i].skip(5), false) == text
            &&& i < plan.order@.len() - 1 ==> lines[2 * i + 1] == "duration "@ + duration
        }),
        crate::selection::is_jpg(listing.names@[plan.order@[i] as int]@),
        forall|j: int| 0 <= j < plan.order@.len() && j != i ==> plan.order@[j] != plan.order@[i],
        plan.order@.len() < 0x1_0000_0000 ==> plan.image_count == plan.order@.len(),
{
    let names = crate::concat::texts_at(listing.texts@, plan.order@);
    assert forall|i: int, k: int| 0 <= i < names.len() && 0 <= k < names[i].len() implies
        #[trigger] names[i][k] != '\n' by {
        assert(listing.texts@[plan.order@[i] as int]@[k] != '\n');
    }
    crate::concat::list_names_every_image(names, duration, i);
    crate::concat::order_picks_the_texts(listing.texts@, plan.order@, i);
    crate::selection::frames_are_distinct(listing.names@, plan.order@);
}

/// An entry of the directory whose name is something and `.jpg` is one of the frames.
pub proof fn every_image_is_planned(listing: Listing, plan: Plan, duration: Seq<char>, k: usize) -> (
    frame: int)
    requires
        plan.compiles(listing, duration),
        k < listing.names@.len(),
        listing.names@[k as int]@.len() > 4,
        listing.names@[k as int]@.skip(listing.names@[k as int]@.len() - 4) == seq![
            '.' as u8,
            'j' as u8,
            'p' as u8,
            'g' as u8,
        ],
    ensures
        0 <= frame < plan.order@.len(),
        plan.order@[frame] == k,
        !has_no_image(listing.names@),
{
    let name = listing.names@[k as int]@;
    let stem = name.take(name.len() - 4);
    crate::selection::stem_with_extension_is_an_image(stem);
    assert(name =~= stem + name.skip(name.len() - 4));
    crate::selection::frames_are_the_images_in_order(listing.names@, plan.order@);
    assert(crate::selection::is_jpg(listing.names@[k as int]@));
    choose|i: int| 0 <= i < plan.order@.len() && #[trigger] plan.order@[i] == k
}

/// A directory has an image exactly when one of its entries is one.
pub proof fn one_image_is_enough(names: Seq<Vec<u8>>)
    ensures
        !has_no_image(names) <==> exists|i: int|
            0 <= i < names.len() && crate::selection::is_jpg(#[trigger] names[i]@),
{
}

/// What can happen in each state.
pub proof fn jobs_go_step_by_step(event: JobEvent)
    ensures
        admissible(JobState::Listing, event) <==> (event matches JobEvent::Listed {
            listing,
            ..
        } && listing.names@.len() == listing.texts@.len()) || event is IoFailed,
        admissible(JobState::Creating, event) <==> event is Created || event is IoFailed,
        admissible(JobState::Writing, event) <==> event is Written || event is WriteFailed,
        admissible(JobState::Running, event) <==> event is RunEnded,
        admissible(JobState::Cleaning, event) <==> event is Removed,
        admissible(JobState::CleaningUnwritten, event) <==> event is Removed,
        !admissible(JobState::Done, event),
        next_state(JobEvent::Created) == JobState::Writing,
        next_state(JobEvent::IoFailed) == JobState::Done,
        next_state(JobEvent::Written) == JobState::Running,
        next_state(JobEvent::WriteFailed) == JobState::CleaningUnwritten,
        next_state(JobEvent::RunEnded) == JobState::Cleaning,
        next_state(JobEvent::Removed) == JobState::Done,
        event matches JobEvent::Listed { listing, .. } ==> next_state(event) == if exists|i: int|
            0 <= i < listing.names@.len() && crate::selection::is_jpg(
                #[trigger] listing.names@[i]@,
            ) {
            JobState::Creating
        } else {
            JobState::Done
        },
{
}

/// What follows from each step: the file is created only for a plan, then written, then ffmpeg
/// runs, then the file is removed, and the job ends as its last step went.
pub proof fn jobs_do_what_is_next(state: JobState, event: JobEvent, action: JobAction)
    requires
        action.answers(state, event),
    ensures
        event is Created <==> action is Write,
        event is Written <==> action is Run,
        event is WriteFailed || event is RunEnded <==> action is Remove,
        action is Return <==> event is Removed && state != JobState::CleaningUnwritten,
        action is FailIo <==> event is IoFailed || event is Removed && state
            == JobState::CleaningUnwritten,
        action matches JobAction::Create(plan) ==> (event matches JobEvent::Listed {
            listing,
            duration,
        } && plan.compiles(listing, duration@) && !has_no_image(listing.names@)),
        action matches JobAction::Fail(error) ==> (event matches JobEvent::Listed { listing, .. }
            && has_no_image(listing.names@)) && error@
            == crate::error::ErrorView::VideoCompilation("No images found in input directory"@),
{
}

/// A plan holds the list of the texts that its order points to, whatever they hold, and counts
/// the frames modulo two to the power of 32; it has at least one.
pub proof fn plans_follow_the_listing(listing: Listing, plan: Plan, duration: Seq<char>)
    requires
        plan.compiles(listing, duration),
    ensures
        plan.order@.len() > 0,
        crate::selection::lists_images(listing.names@, plan.order@),
        plan.concat@ == crate::concat::concat_list(
            plan.order@.map_values(|k: usize| listing.texts@[k as int]@),
            duration,
        ),
        exists|rounds: int|
            #![trigger rounds * 0x1_0000_0000]
            0 <= rounds && plan.order@.len() == rounds * 0x1_0000_0000 + plan.image_count,
{
    let texts = crate::concat::texts_at(listing.texts@, plan.order@);
    assert(texts =~= plan.order@.map_values(|k: usize| listing.texts@[k as int]@));
    let rounds = plan.order@.len() as int / 0x1_0000_0000;
    assert(plan.order@.len() == rounds * 0x1_0000_0000 + plan.image_count);
}

} // verus!
