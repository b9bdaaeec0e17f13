use tjipe_showcase::poster::{
    delete_video_posters, find_poster, find_video_poster, join_extension, poster_candidates, poster_to_save,
    posters_to_remove, save_video_poster, FoundFiles, IMAGE_FOLDER, POSTER_FOLDER,
};
use tjipe_showcase::poster_job::{
    poster_file_name, temp_folder_name, try_generate_video_poster, PosterAction, PosterJob, PosterStep,
};

fn found(names: &[&str]) -> FoundFiles {
    Some(names.iter().map(|name| (name.to_string(), format!("/r/{}", name))).collect())
}

#[test]
fn candidates_in_order() {
    assert_eq!(poster_candidates("v"), vec!["v.jpg", "v.jpeg", "v.png", "v.gif", "v.webp", "v.bmp"]);
    assert_eq!(join_extension("a.b", "jpg"), "a.b.jpg");
}

#[test]
fn poster_folder_goes_before_images() {
    let posters = found(&["v.bmp", "v.png", "w.jpg"]);
    let images = found(&["v.jpg", "u.gif"]);
    assert_eq!(find_video_poster("v.mp4", &posters, &images), "/r/v.png");
    assert_eq!(find_video_poster("u.mp4", &posters, &images), "/r/u.gif");
    assert_eq!(find_video_poster("v.mp4", &None, &images), "/r/v.jpg");
    assert_eq!(find_video_poster("x.mp4", &posters, &images), "");
    assert_eq!(find_video_poster("x.mp4", &None, &None), "");
    assert_eq!(find_poster("w", &posters, &None), "/r/w.jpg");
}

#[test]
fn posters_are_saved_as_jpg() {
    assert_eq!(save_video_poster("a.b.mp4", &vec![1]), Some("a.b.jpg".to_string()));
    assert_eq!(save_video_poster("a.mp4", &vec![]), None);
    assert_eq!(save_video_poster("", &vec![1]), None);
    assert_eq!(poster_to_save("", &vec![1]), None);
    let name = save_video_poster("a.mp4", &vec![1]).unwrap();
    assert_eq!(find_video_poster("a.mp4", &found(&[&name]), &None), "/r/a.jpg");
}

#[test]
fn posters_go_with_their_video() {
    let posters = found(&["v.png", "v.jpg", "w.jpg"]);
    let images = found(&["v.gif", "v.txt"]);
    let place = |folder: &str, name: &str| (folder.to_string(), name.to_string());
    assert_eq!(
        delete_video_posters("v.mp4", &posters, &images),
        vec![place("posters", "v.jpg"), place("posters", "v.png"), place("images", "v.gif")],
    );
    assert_eq!(delete_video_posters("", &found(&[".jpg"]), &None), vec![]);
    assert_eq!(posters_to_remove("v", &None, &images), vec![place("images", "v.gif")]);
    assert_eq!((POSTER_FOLDER, IMAGE_FOLDER), ("posters", "images"));
    let left = found(&["w.jpg"]);
    assert_eq!(find_video_poster("v.mp4", &left, &found(&["v.txt"])), "");
}

fn job() -> PosterJob {
    PosterJob {
        stem: "v".to_string(),
        video: "/r/videos/v.mp4".to_string(),
        poster: "/r/posters/v.jpg".to_string(),
        temp_folder: "/tmp/tjipe-ql-7".to_string(),
        video_file: "v.mp4".to_string(),
    }
}

/// What a job does, given its answers.
fn trace(answers: &[bool]) -> Vec<PosterStep> {
    let mut step = try_generate_video_poster("", "v");
    let mut steps = vec![step];
    for answer in answers {
        step = step.next(*answer);
        steps.push(step);
    }
    steps
}

#[test]
fn job_begins_only_where_a_poster_is_missing() {
    assert_eq!(try_generate_video_poster("/r/posters/v.jpg", "v"), PosterStep::Finished);
    assert_eq!(try_generate_video_poster("", ""), PosterStep::Finished);
    assert_eq!(try_generate_video_poster("", "v"), PosterStep::CreatePosterFolder);
}

#[test]
fn job_ends_with_the_first_poster() {
    assert_eq!(
        trace(&[true, true, true]),
        vec![
            PosterStep::CreatePosterFolder,
            PosterStep::GrabFrameAfterStart,
            PosterStep::CheckFrameAfterStart,
            PosterStep::Finished,
        ],
    );
    assert_eq!(trace(&[false]).last(), Some(&PosterStep::Finished));
    assert_eq!(trace(&[true, false, true, true]).last(), Some(&PosterStep::Finished));
}

#[test]
fn job_falls_back_to_thumbnails() {
    assert_eq!(
        trace(&[true, true, false, true, false, true, true, true, false]),
        vec![
            PosterStep::CreatePosterFolder,
            PosterStep::GrabFrameAfterStart,
            PosterStep::CheckFrameAfterStart,
            PosterStep::GrabFirstFrame,
            PosterStep::CheckFirstFrame,
            PosterStep::CreateTempFolder,
            PosterStep::MakeThumbnail,
            PosterStep::CheckThumbnail,
            PosterStep::CopyThumbnail,
            PosterStep::Finished,
        ],
    );
    assert_eq!(trace(&[true, false, false]).last(), Some(&PosterStep::CreateTempFolder));
    assert_eq!(trace(&[true, false, false, false]).last(), Some(&PosterStep::Finished));
    assert_eq!(trace(&[true, false, false, true, false]).last(), Some(&PosterStep::Finished));
    assert_eq!(trace(&[true, false, false, true, true, false]).last(), Some(&PosterStep::Finished));
}

#[test]
fn commands_of_a_job() {
    let job = job();
    match job.action(PosterStep::GrabFrameAfterStart) {
        PosterAction::Run { program, arguments } => {
            assert_eq!(program, "ffmpeg");
            assert_eq!(
                arguments,
                vec!["-y", "-ss", "0.20", "-i", "/r/videos/v.mp4", "-frames:v", "1", "-q:v", "2", "/r/posters/v.jpg"],
            );
        }
        _ => panic!("not a command"),
    }
    match job.action(PosterStep::GrabFirstFrame) {
        PosterAction::Run { program, arguments } => {
            assert_eq!(program, "ffmpeg");
            assert_eq!(
                arguments,
                vec!["-y", "-i", "/r/videos/v.mp4", "-frames:v", "1", "-q:v", "2", "/r/posters/v.jpg"],
            );
        }
        _ => panic!("not a command"),
    }
    match job.action(PosterStep::MakeThumbnail) {
        PosterAction::Run { program, arguments } => {
            assert_eq!(program, "qlmanage");
            assert_eq!(arguments, vec!["-t", "-s", "1024", "-o", "/tmp/tjipe-ql-7", "/r/videos/v.mp4"]);
        }
        _ => panic!("not a command"),
    }
    match job.action(PosterStep::CopyThumbnail) {
        PosterAction::CopyThumbnail { from, to } => {
            assert_eq!((from.as_str(), to.as_str()), ("v.mp4.png", "v.png"));
        }
        _ => panic!("not a copy"),
    }
    assert!(matches!(job.action(PosterStep::CheckThumbnail), PosterAction::CheckThumbnail { file } if file == "v.mp4.png"));
    assert!(matches!(job.action(PosterStep::CheckFirstFrame), PosterAction::CheckPoster));
    assert!(matches!(job.action(PosterStep::Finished), PosterAction::Nothing));
    assert_eq!(temp_folder_name(4321), "tjipe-ql-4321");
    assert_eq!(poster_file_name("v"), "v.jpg");
}
