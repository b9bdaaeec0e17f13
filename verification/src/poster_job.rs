//! Making a poster out of a video with the tools of the machine: ffmpeg first,
//! and the thumbnails of QuickLook where ffmpeg gives none. The job is a chain of
//! steps; the answer to each step decides which one follows.
use vstd::prelude::*;

use crate::poster::join_extension;
use crate::text;
use crate::text::decimal_text;

verus! {

/// The steps of a poster job.
#[derive(Clone, Copy, PartialEq, Eq, Structural, Debug)]
pub enum PosterStep {
    CreatePosterFolder,
    GrabFrameAfterStart,
    CheckFrameAfterStart,
    GrabFirstFrame,
    CheckFirstFrame,
    CreateTempFolder,
    MakeThumbnail,
    CheckThumbnail,
    CopyThumbnail,
    Finished,
}

/// What a poster job works on: the stem of the video, the paths of the video and
/// of its poster as they are handed to the tools, the folder for thumbnails and
/// the file name of the video.
pub struct PosterJob {
    pub stem: String,
    pub video: String,
    pub poster: String,
    pub temp_folder: String,
    pub video_file: String,
}

/// What is to be done at a step. The answer is whether it went well; for a check,
/// whether the file is there.
pub enum PosterAction {
    CreatePosterFolder,
    Run { program: String, arguments: Vec<String> },
    CheckPoster,
    CreateTempFolder,
    CheckThumbnail { file: String },
    CopyThumbnail { from: String, to: String },
    Nothing,
}

/// An action as sequences of characters.
pub enum PosterActionView {
    CreatePosterFolder,
    Run { program: Seq<char>, arguments: Seq<Seq<char>> },
    CheckPoster,
    CreateTempFolder,
    CheckThumbnail { file: Seq<char> },
    CopyThumbnail { from: Seq<char>, to: Seq<char> },
    Nothing,
}

impl View for PosterAction {
    type V = PosterActionView;

    open spec fn view(&self) -> PosterActionView {
        match self {
            PosterAction::CreatePosterFolder => PosterActionView::CreatePosterFolder,
            PosterAction::Run { program, arguments } => PosterActionView::Run {
                program: program@,
                arguments: arguments.deep_view(),
            },
            PosterAction::CheckPoster => PosterActionView::CheckPoster,
            PosterAction::CreateTempFolder => PosterActionView::CreateTempFolder,
            PosterAction::CheckThumbnail { file } => PosterActionView::CheckThumbnail { file: file@ },
            PosterAction::CopyThumbnail { from, to } => PosterActionView::CopyThumbnail {
                from: from@,
                to: to@,
            },
            PosterAction::Nothing => PosterActionView::Nothing,
        }
    }
}

/// The first step: none where the video has a poster already or has no stem.
pub open spec fn first_step(existing_poster: Seq<char>, stem: Seq<char>) -> PosterStep {
    if existing_poster.len() > 0 || stem.len() == 0 {
        PosterStep::Finished
    } else {
        PosterStep::CreatePosterFolder
    }
}

/// The step that follows an answer.
pub open spec fn next_step(step: PosterStep, answer: bool) -> PosterStep {
    match step {
        PosterStep::CreatePosterFolder => if answer {
            PosterStep::GrabFrameAfterStart
        } else {
            PosterStep::Finished
        },
        PosterStep::GrabFrameAfterStart => if answer {
            PosterStep::CheckFrameAfterStart
        } else {
            PosterStep::GrabFirstFrame
        },
        PosterStep::CheckFrameAfterStart => if answer {
            PosterStep::Finished
        } else {
            PosterStep::GrabFirstFrame
        },
        PosterStep::GrabFirstFrame => if answer {
            PosterStep::CheckFirstFrame
        } else {
            PosterStep::CreateTempFolder
        },
        PosterStep::CheckFirstFrame => if answer {
            PosterStep::Finished
        } else {
            PosterStep::CreateTempFolder
        },
        PosterStep::CreateTempFolder => if answer {
            PosterStep::MakeThumbnail
        } else {
            PosterStep::Finished
        },
        PosterStep::MakeThumbnail => if answer {
            PosterStep::CheckThumbnail
        } else {
            PosterStep::Finished
        },
        PosterStep::CheckThumbnail => if answer {
            PosterStep::CopyThumbnail
        } else {
            PosterStep::Finished
        },
        PosterStep::CopyThumbnail => PosterStep::Finished,
        PosterStep::Finished => PosterStep::Finished,
    }
}

/// The arguments for ffmpeg: one frame of `video`, a little after the start or
/// from the start, written to `poster`.
pub open spec fn ffmpeg_arguments(video: Seq<char>, poster: Seq<char>, after_start: bool) -> Seq<Seq<char>> {
    if after_start {
        seq![
            "-y"@,
            "-ss"@,
            "0.20"@,
            "-i"@,
            video,
            "-frames:v"@,
            "1"@,
            "-q:v"@,
            "2"@,
            poster,
        ]
    } else {
        seq!["-y"@, "-i"@, video, "-frames:v"@, "1"@, "-q:v"@, "2"@, poster]
    }
}

/// The arguments for qlmanage: a thumbnail of `video` in `folder`.
pub open spec fn quicklook_arguments(folder: Seq<char>, video: Seq<char>) -> Seq<Seq<char>> {
    seq!["-t"@, "-s"@, "1024"@, "-o"@, folder, video]
}

/// What is to be done at a step of a job.
pub open spec fn action_of(job: PosterJob, step: PosterStep) -> PosterActionView {
    match step {
        PosterStep::CreatePosterFolder => PosterActionView::CreatePosterFolder,
        PosterStep::GrabFrameAfterStart => PosterActionView::Run {
            program: "ffmpeg"@,
            arguments: ffmpeg_arguments(job.video@, job.poster@, true),
        },
        PosterStep::CheckFrameAfterStart => PosterActionView::CheckPoster,
        PosterStep::GrabFirstFrame => PosterActionView::Run {
            program: "ffmpeg"@,
            arguments: ffmpeg_arguments(job.video@, job.poster@, false),
        },
        PosterStep::CheckFirstFrame => PosterActionView::CheckPoster,
        PosterStep::CreateTempFolder => PosterActionView::CreateTempFolder,
        PosterStep::MakeThumbnail => PosterActionView::Run {
            program: "qlmanage"@,
            arguments: quicklook_arguments(job.temp_folder@, job.video@),
        },
        PosterStep::CheckThumbnail => PosterActionView::CheckThumbnail {
            file: job.video_file@ + "."@ + "png"@,
        },
        PosterStep::CopyThumbnail => PosterActionView::CopyThumbnail {
            from: job.video_file@ + "."@ + "png"@,
            to: job.stem@ + "."@ + "png"@,
        },
        PosterStep::Finished => PosterActionView::Nothing,
    }
}

/// The step a job is at after a number of answers.
pub open spec fn step_after(step: PosterStep, answers: Seq<bool>) -> PosterStep
    decreases answers.len(),
{
    if answers.len() == 0 {
        step
    } else {
        step_after(next_step(step, answers[0]), answers.drop_first())
    }
}

/// The steps that are left at most.
pub open spec fn steps_left(step: PosterStep) -> nat {
    match step {
        PosterStep::CreatePosterFolder => 9,
        PosterStep::GrabFrameAfterStart => 8,
        PosterStep::CheckFrameAfterStart => 7,
        PosterStep::GrabFirstFrame => 6,
        PosterStep::CheckFirstFrame => 5,
        PosterStep::CreateTempFolder => 4,
        PosterStep::MakeThumbnail => 3,
        PosterStep::CheckThumbnail => 2,
        PosterStep::CopyThumbnail => 1,
        PosterStep::Finished => 0,
    }
}

/// The folder for the thumbnails that the process `pid` makes.
pub fn temp_folder_name(pid: u32) -> (res: String)
    ensures
        res@ == "tjipe-ql-"@ + text::decimal(pid as nat),
{
    "tjipe-ql-".to_owned().concat(decimal_text(pid as u64).as_str())
}

/// The name of the poster that a job makes for a video with the given stem.
pub fn poster_file_name(stem: &str) -> (res: String)
    ensures
        res@ == stem@ + "."@ + "jpg"@,
{
    join_extension(stem, "jpg")
}

/// Begins a poster job: there is nothing to do where the video has a poster
/// already, or no stem to name one by.
pub fn try_generate_video_poster(existing_poster: &str, stem: &str) -> (res: PosterStep)
    ensures
        res == first_step(existing_poster@, stem@),
{
    if !existing_poster.is_empty() || stem.is_empty() {
        PosterStep::Finished
    } else {
        PosterStep::CreatePosterFolder
    }
}

impl PosterStep {
    /// The step that follows when the action of this one was answered.
    pub fn next(self, answer: bool) -> (res: PosterStep)
        ensures
            res == next_step(self, answer),
    {
        match (self, answer) {
            (PosterStep::CreatePosterFolder, true) => PosterStep::GrabFrameAfterStart,
            (PosterStep::GrabFrameAfterStart, true) => PosterStep::CheckFrameAfterStart,
            (PosterStep::GrabFrameAfterStart, false) => PosterStep::GrabFirstFrame,
            (PosterStep::CheckFrameAfterStart, false) => PosterStep::GrabFirstFrame,
            (PosterStep::GrabFirstFrame, true) => PosterStep::CheckFirstFrame,
            (PosterStep::GrabFirstFrame, false) => PosterStep::CreateTempFolder,
            (PosterStep::CheckFirstFrame, false) => PosterStep::CreateTempFolder,
            (PosterStep::CreateTempFolder, true) => PosterStep::MakeThumbnail,
            (PosterStep::MakeThumbnail, true) => PosterStep::CheckThumbnail,
            (PosterStep::CheckThumbnail, true) => PosterStep::CopyThumbnail,
            _ => PosterStep::Finished,
        }
    }
}

fn ffmpeg_command(video: &str, poster: &str, after_start: bool) -> (res: PosterAction)
    ensures
        res@ == (PosterActionView::Run {
            program: "ffmpeg"@,
            arguments: ffmpeg_arguments(video@, poster@, after_start),
        }),
{
    let mut arguments: Vec<String> = vec!["-y".to_owned()];
    if after_start {
        arguments.push("-ss".to_owned());
        arguments.push("0.20".to_owned());
    }
    arguments.push("-i".to_owned());
    arguments.push(video.to_owned());
    arguments.push("-frames:v".to_owned());
    arguments.push("1".to_owned());
    arguments.push("-q:v".to_owned());
    arguments.push("2".to_owned());
    arguments.push(poster.to_owned());
    assert(arguments.deep_view() == ffmpeg_arguments(video@, poster@, after_start));
    PosterAction::Run { program: "ffmpeg".to_owned(), arguments }
}

impl PosterJob {
    /// What is to be done at `step`.
    pub fn action(&self, step: PosterStep) -> (res: PosterAction)
        ensures
            res@ == action_of(*self, step),
    {
        match step {
            PosterStep::CreatePosterFolder => PosterAction::CreatePosterFolder,
            PosterStep::GrabFrameAfterStart => ffmpeg_command(self.video.as_str(), self.poster.as_str(), true),
            PosterStep::CheckFrameAfterStart => PosterAction::CheckPoster,
            PosterStep::GrabFirstFrame => ffmpeg_command(self.video.as_str(), self.poster.as_str(), false),
            PosterStep::CheckFirstFrame => PosterAction::CheckPoster,
            PosterStep::CreateTempFolder => PosterAction::CreateTempFolder,
            PosterStep::MakeThumbnail => {
                let arguments = vec![
                    "-t".to_owned(),
                    "-s".to_owned(),
                    "1024".to_owned(),
                    "-o".to_owned(),
                    self.temp_folder.clone(),
                    self.video.clone(),
                ];
                assert(arguments.deep_view() == quicklook_arguments(self.temp_folder@, self.video@));
                PosterAction::Run { program: "qlmanage".to_owned(), arguments }
            },
            PosterStep::CheckThumbnail => PosterAction::CheckThumbnail {
                file: join_extension(self.video_file.as_str(), "png"),
            },
            PosterStep::CopyThumbnail => PosterAction::CopyThumbnail {
                from: join_extension(self.video_file.as_str(), "png"),
                to: join_extension(self.stem.as_str(), "png"),
            },
            PosterStep::Finished => PosterAction::Nothing,
        }
    }
}

/// Whatever the answers are, a job is finished after as many of them as it has
/// steps left, which is nine at most.
pub proof fn job_finishes(step: PosterStep, answers: Seq<bool>)
    requires
        answers.len() >= steps_left(step),
    ensures
        step_after(step, answers) == PosterStep::Finished,
        steps_left(step) <= 9,
    decreases answers.len(),
{
    if answers.len() > 0 {
        let next = next_step(step, answers[0]);
        assert(steps_left(next) < steps_left(step) || next == PosterStep::Finished);
        job_finishes(next, answers.drop_first());
    }
}

/// A poster that ffmpeg made ends the job, and the thumbnail tool is tried only
/// after both attempts with ffmpeg gave none.
pub proof fn thumbnail_is_the_last_resort(step: PosterStep, answer: bool)
    ensures
        next_step(PosterStep::CheckFrameAfterStart, true) == PosterStep::Finished,
        next_step(PosterStep::CheckFirstFrame, true) == PosterStep::Finished,
        next_step(step, answer) == PosterStep::CreateTempFolder <==> !answer && (step == PosterStep::GrabFirstFrame
            || step == PosterStep::CheckFirstFrame),
        next_step(step, answer) == PosterStep::GrabFirstFrame <==> !answer && (step
            == PosterStep::GrabFrameAfterStart || step == PosterStep::CheckFrameAfterStart),
{
}

/// Which answer at which step leads where. A poster folder is needed before a frame
/// is grabbed, a tool that went well is followed by a look at its file, a frame that
/// was not grabbed or is not there by the next attempt, and nothing follows the
/// thumbnail. A video that has a poster, or no stem, is left alone.
pub proof fn steps_follow_answers(step: PosterStep, answer: bool, existing: Seq<char>, stem: Seq<char>)
    ensures
        first_step(existing, stem) == PosterStep::CreatePosterFolder <==> existing.len() == 0 && stem.len() > 0,
        first_step(existing, stem) == PosterStep::Finished <==> existing.len() > 0 || stem.len() == 0,
        next_step(step, answer) != PosterStep::CreatePosterFolder,
        next_step(step, answer) == PosterStep::GrabFrameAfterStart <==> answer && step is CreatePosterFolder,
        next_step(step, answer) == PosterStep::CheckFrameAfterStart <==> answer && step is GrabFrameAfterStart,
        next_step(step, answer) == PosterStep::GrabFirstFrame <==> !answer && (step is GrabFrameAfterStart
            || step is CheckFrameAfterStart),
        next_step(step, answer) == PosterStep::CheckFirstFrame <==> answer && step is GrabFirstFrame,
        next_step(step, answer) == PosterStep::CreateTempFolder <==> !answer && (step is GrabFirstFrame
            || step is CheckFirstFrame),
        next_step(step, answer) == PosterStep::MakeThumbnail <==> answer && step is CreateTempFolder,
        next_step(step, answer) == PosterStep::CheckThumbnail <==> answer && step is MakeThumbnail,
        next_step(step, answer) == PosterStep::CopyThumbnail <==> answer && step is CheckThumbnail,
{
}

/// What the tools are told. Both attempts with ffmpeg read the video and write one
/// frame to the poster, over a file that is there; they differ only in where they
/// begin, which is a fifth of a second after the start at the first. The thumbnail
/// tool reads the same video.
pub proof fn tools_are_told_the_files(job: PosterJob)
    ensures
        action_of(job, PosterStep::GrabFrameAfterStart) matches PosterActionView::Run { program, arguments } && {
            &&& program == "ffmpeg"@
            &&& arguments.len() == 10
            &&& arguments[0] == "-y"@
            &&& arguments[1] == "-ss"@
            &&& arguments[2] == "0.20"@
            &&& action_of(job, PosterStep::GrabFirstFrame) == (PosterActionView::Run {
                program,
                arguments: seq![arguments[0]] + arguments.skip(3),
            })
        },
        action_of(job, PosterStep::GrabFirstFrame) matches PosterActionView::Run { program, arguments } && {
            &&& arguments.len() == 8
            &&& arguments[1] == "-i"@
            &&& arguments[2] == job.video@
            &&& arguments[3] == "-frames:v"@
            &&& arguments[4] == "1"@
            &&& arguments[5] == "-q:v"@
            &&& arguments[6] == "2"@
            &&& arguments[7] == job.poster@
        },
        action_of(job, PosterStep::MakeThumbnail) matches PosterActionView::Run { program, arguments } && {
            &&& program == "qlmanage"@
            &&& arguments.len() == 6
            &&& arguments[0] == "-t"@
            &&& arguments[1] == "-s"@
            &&& arguments[2] == "1024"@
            &&& arguments[3] == "-o"@
            &&& arguments[4] == job.temp_folder@
            &&& arguments[5] == job.video@
        },
{
    let after = ffmpeg_arguments(job.video@, job.poster@, true);
    assert(ffmpeg_arguments(job.video@, job.poster@, false) == seq![after[0]] + after.skip(3));
}

/// The other steps: folders are created, the poster is looked for, and the thumbnail
/// that was looked for, which is called like the video file with the ending .png, is
/// the one that is copied, to the stem of the video with the same ending.
pub proof fn other_steps_of_a_job(job: PosterJob)
    ensures
        action_of(job, PosterStep::CreatePosterFolder) is CreatePosterFolder,
        action_of(job, PosterStep::CheckFrameAfterStart) is CheckPoster,
        action_of(job, PosterStep::CheckFirstFrame) is CheckPoster,
        action_of(job, PosterStep::CreateTempFolder) is CreateTempFolder,
        action_of(job, PosterStep::Finished) is Nothing,
        action_of(job, PosterStep::CheckThumbnail) == (PosterActionView::CheckThumbnail {
            file: job.video_file@ + ".png"@,
        }),
        action_of(job, PosterStep::CopyThumbnail) == (PosterActionView::CopyThumbnail {
            from: job.video_file@ + ".png"@,
            to: job.stem@ + ".png"@,
        }),
{
    reveal_strlit(".");
    reveal_strlit("png");
    reveal_strlit(".png");
    assert(job.video_file@ + "."@ + "png"@ == job.video_file@ + ".png"@);
    assert(job.stem@ + "."@ + "png"@ == job.stem@ + ".png"@);
}

} // verus!
