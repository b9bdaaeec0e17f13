use tjipe_showcase::achievements::{
    delete_achievement, deletes_posters, is_video_path, plan_upload, poster_for_upload, record_upload, takes_poster, time_stamp,
    update_achievement_meta, update_description, upload_achievement, Submission,
};
use tjipe_showcase::json::{load_achievement_meta, save_achievement_meta};
use tjipe_showcase::listing::{list_media, DirEntry, FileDetails, Folder, Snapshot};
use tjipe_showcase::meta::MetaStore;
use tjipe_showcase::names::{unique_file_path, FilePath};
use tjipe_showcase::poster::find_video_poster;
use tjipe_showcase::poster_job::{try_generate_video_poster, PosterStep};

fn submission(title: &str) -> Submission {
    Submission {
        title: title.to_string(),
        owner: " o ".to_string(),
        patent_no: "\tp".to_string(),
        description: "d\n".to_string(),
    }
}

fn images() -> Vec<String> {
    vec!["images".to_string()]
}

#[test]
fn uploads_are_planned() {
    let plan = plan_upload(" my clip.MP4 ", &vec![1]).ok().unwrap();
    assert_eq!(plan.file_name, "my_clip.MP4");
    assert_eq!(plan.media_type, "video");
    assert_eq!(plan.folder, "videos");
    let plan = plan_upload("a.pps", &vec![1]).ok().unwrap();
    assert_eq!((plan.media_type.as_str(), plan.folder.as_str()), ("ppt", "ppt"));
}

#[test]
fn bad_uploads_are_refused() {
    let refusal = |name: &str, data: Vec<u8>| plan_upload(name, &data).err();
    assert_eq!(refusal("a.mp4", vec![]), Some("上传文件内容为空".to_string()));
    assert_eq!(refusal("a.exe", vec![]), Some("上传文件内容为空".to_string()));
    assert_eq!(refusal("a.exe", vec![1]), Some("文件格式不受支持".to_string()));
    assert_eq!(refusal("mp4", vec![1]), Some("文件格式不受支持".to_string()));
    assert_eq!(refusal(".mp4", vec![1]), Some("文件格式不受支持".to_string()));
}

#[test]
fn uploads_are_described() {
    let mut store = MetaStore::new();
    let plan = plan_upload("a.png", &vec![1]).ok().unwrap();
    let answer = upload_achievement(&mut store, &plan, "a_1.png", &submission("  "), Some(1700000000));
    assert!(answer.ok);
    assert_eq!(answer.file_name, "a_1.png");
    assert_eq!(answer.media_type, "image");
    let meta = store.get("a_1.png").unwrap();
    assert_eq!(meta.title, "a_1");
    assert_eq!(meta.owner, "o");
    assert_eq!(meta.patent_no, "p");
    assert_eq!(meta.description, "d");
    assert_eq!(meta.created_at, "1700000000");
    upload_achievement(&mut store, &plan, "b.png", &submission(" 标题 "), None);
    assert_eq!(store.get("b.png").unwrap().title, "标题");
    assert_eq!(store.get("b.png").unwrap().created_at, "");
    assert_eq!(time_stamp(Some(0)), "0");
}

#[test]
fn uploads_without_a_name() {
    let mut store = MetaStore::new();
    let path = FilePath { name: None, stem: None, extension: None };
    let answer = record_upload(&mut store, &path, "ppt".to_string(), &submission(""), None);
    assert_eq!(answer.file_name, "");
    assert_eq!(store.get("").unwrap().title, "成果");
}

#[test]
fn uploaded_files_are_listed() {
    let plan = plan_upload("成果 图.JPG", &vec![1]).ok().unwrap();
    let taken = vec!["成果_图.JPG".to_string()];
    let saved_as = unique_file_path(&plan.file_name, &taken);
    assert_eq!(saved_as, "成果_图_1.JPG");
    let mut store = MetaStore::new();
    upload_achievement(&mut store, &plan, &saved_as, &submission("标题"), Some(1));
    let entry = DirEntry {
        path: FilePath::of(&saved_as),
        name_bytes: saved_as.as_bytes().to_vec(),
        shown: saved_as.clone(),
        is_file: true,
        details: Ok(FileDetails { size: 1, modified: None }),
        posters: None,
        images: None,
    };
    assert_eq!(plan.folder, "images");
    let snapshot = Snapshot { videos: Folder::Missing, images: Folder::Entries(vec![entry]), ppt: Folder::Missing };
    let loaded = load_achievement_meta(Some(&save_achievement_meta(&store).unwrap()));
    let items = list_media(&loaded, &snapshot).ok().unwrap().items;
    assert_eq!(items.len(), 1);
    assert_eq!(items[0].name, saved_as);
    assert_eq!(items[0].display_name, "标题");
    assert_eq!(items[0].kind, "image");
    assert_eq!(items[0].achievement.title, "标题");
    assert_eq!(items[0].achievement.owner, "o");
    assert_eq!(items[0].achievement.patent_no, "p");
    assert_eq!(items[0].achievement.description, "d");
    assert_eq!(items[0].achievement.created_at, "1");
}

#[test]
fn updates_keep_the_creation_time() {
    let mut store = MetaStore::new();
    assert!(update_achievement_meta(&mut store, "a.png", &images(), &submission("t"), Some(5)).is_ok());
    assert_eq!(store.get("a.png").unwrap().created_at, "5");
    assert!(update_achievement_meta(&mut store, "a.png", &Vec::new(), &submission(""), Some(9)).is_ok());
    let meta = store.get("a.png").unwrap();
    assert_eq!(meta.created_at, "5");
    assert_eq!(meta.title, "a");
    assert_eq!(meta.owner, "o");
}

#[test]
fn updates_of_unknown_files_are_refused() {
    let mut store = MetaStore::new();
    let posters = vec!["posters".to_string()];
    let refusal = update_achievement_meta(&mut store, "a.png", &posters, &submission("t"), Some(5)).err();
    assert_eq!(refusal, Some("未找到该成果".to_string()));
    assert_eq!(store.entries().len(), 0);
}

#[test]
fn updates_fall_back_to_a_fixed_title() {
    let mut store = MetaStore::new();
    let path = FilePath { name: None, stem: None, extension: None };
    assert!(update_description(&mut store, "..", &path, &images(), &submission(" "), None).is_ok());
    assert_eq!(store.get("..").unwrap().title, "成果");
}

#[test]
fn updating_twice_changes_nothing() {
    let mut store = MetaStore::new();
    let _ = update_achievement_meta(&mut store, "a.png", &images(), &submission("t"), Some(5));
    let first = store.get("a.png").unwrap();
    let _ = update_achievement_meta(&mut store, "a.png", &images(), &submission("t"), Some(6));
    let second = store.get("a.png").unwrap();
    assert_eq!(first.created_at, second.created_at);
    assert_eq!(first.title, second.title);
    assert_eq!(store.entries().len(), 1);
}

#[test]
fn deletions_take_the_description() {
    let mut store = MetaStore::new();
    let _ = update_achievement_meta(&mut store, "a.png", &images(), &submission("t"), Some(5));
    let _ = update_achievement_meta(&mut store, "b.png", &images(), &submission("t"), Some(5));
    let deletion = delete_achievement(&mut store, "a.png", false).ok().unwrap();
    assert!(deletion.answer.ok && deletion.save);
    assert!(!store.contains_key("a.png"));
    assert!(store.contains_key("b.png"));
    let deletion = delete_achievement(&mut store, "a.png", true).ok().unwrap();
    assert!(deletion.answer.ok && !deletion.save);
    assert_eq!(delete_achievement(&mut store, "a.png", false).err(), Some("未找到该成果".to_string()));
}

#[test]
fn posters_are_deleted_with_videos() {
    assert!(deletes_posters("a.MP4", None));
    assert!(!deletes_posters("a.jpg", None));
    assert!(deletes_posters("a.jpg", Some(&FilePath::of("x.webm"))));
    assert!(!deletes_posters("a.jpg", Some(&FilePath::of("a.jpg"))));
    assert!(is_video_path(&FilePath::of("x.m4v")));
}

#[test]
fn only_videos_take_posters() {
    let video = plan_upload("a.MOV", &vec![1]).ok().unwrap();
    assert!(takes_poster(&video));
    assert_eq!(poster_for_upload(&video, "a_1.MOV", &vec![7]), Some("a_1.jpg".to_string()));
    assert_eq!(poster_for_upload(&video, "videos/a.b.MOV", &vec![7]), Some("a.b.jpg".to_string()));
    assert_eq!(poster_for_upload(&video, "a_1.MOV", &vec![]), None);
    assert_eq!(poster_for_upload(&video, "videos/..", &vec![7]), None);
    for name in ["a.png", "a.pdf"] {
        let other = plan_upload(name, &vec![1]).ok().unwrap();
        assert!(!takes_poster(&other));
        assert_eq!(poster_for_upload(&other, name, &vec![7]), None);
    }
}

#[test]
fn a_poster_that_is_handed_in_is_kept() {
    let plan = plan_upload("a.mp4", &vec![1]).ok().unwrap();
    let name = poster_for_upload(&plan, "a.mp4", &vec![7]).unwrap();
    let posters = Some(vec![("a.png".to_string(), "old".to_string()), (name, "/r/posters/a.jpg".to_string())]);
    let poster = find_video_poster("a.mp4", &posters, &None);
    assert_eq!(poster, "/r/posters/a.jpg");
    assert_eq!(try_generate_video_poster(&poster, "a"), PosterStep::Finished);
}

#[test]
fn names_in_folders_are_described_by_their_stem() {
    let mut store = MetaStore::new();
    assert!(update_achievement_meta(&mut store, "x/y/成果.png", &images(), &submission(""), Some(5)).is_ok());
    assert_eq!(store.get("x/y/成果.png").unwrap().title, "成果");
    assert!(deletes_posters("/x/clip.mp4/", None));
    assert!(!deletes_posters("clip.mp4/..", None));
}

#[test]
fn a_second_upload_gets_a_name_of_its_own() {
    let mut store = MetaStore::new();
    let mut taken: Vec<String> = Vec::new();
    for title in ["first", "second"] {
        let plan = plan_upload(" a?.png", &vec![1]).ok().unwrap();
        let saved_as = unique_file_path(&plan.file_name, &taken);
        upload_achievement(&mut store, &plan, &saved_as, &submission(title), Some(1));
        taken.push(saved_as);
    }
    let video = plan_upload("a?.mp4", &vec![1]).ok().unwrap();
    let saved_as = unique_file_path(&video.file_name, &vec![]);
    upload_achievement(&mut store, &video, &saved_as, &submission("third"), Some(1));
    assert_eq!(taken, vec!["a_.png".to_string(), "a__1.png".to_string()]);
    assert_eq!(store.get("a_.png").unwrap().title, "first");
    assert_eq!(store.get("a__1.png").unwrap().title, "second");
    assert_eq!(store.get("a_.mp4").unwrap().title, "third");
}
