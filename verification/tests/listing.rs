use tjipe_showcase::listing::{collect_video_stems, list_media, DirEntry, FileDetails, Folder, Snapshot};
use tjipe_showcase::meta::{AchievementMeta, MetaStore};
use tjipe_showcase::names::FilePath;
use tjipe_showcase::order::{bytes_go_before, stable_order, LatestFirst};

fn entry(name: &str, modified: Option<u128>) -> DirEntry {
    DirEntry {
        path: FilePath::of(name),
        name_bytes: name.as_bytes().to_vec(),
        shown: format!("/r/{}", name),
        is_file: true,
        details: Ok(FileDetails { size: name.len() as u64, modified }),
        posters: Some(vec![("v.png".to_string(), "/r/posters/v.png".to_string())]),
        images: None,
    }
}

fn names(meta: &MetaStore, snapshot: &Snapshot) -> Vec<String> {
    match list_media(meta, snapshot) {
        Ok(payload) => payload.items.into_iter().map(|item| item.name).collect(),
        Err(reason) => panic!("{}", reason),
    }
}

#[test]
fn newest_first_then_by_folder_and_name() {
    let snapshot = Snapshot {
        videos: Folder::Entries(vec![entry("b.mp4", Some(5)), entry("a.mp4", Some(5)), entry("c.mov", Some(9))]),
        images: Folder::Entries(vec![entry("z.png", Some(5)), entry("B.png", Some(5)), entry("old.gif", None)]),
        ppt: Folder::Entries(vec![entry("p.pdf", Some(7)), entry("q.ppt", Some(0))]),
    };
    assert_eq!(
        names(&MetaStore::new(), &snapshot),
        vec!["c.mov", "p.pdf", "a.mp4", "b.mp4", "B.png", "z.png", "old.gif", "q.ppt"],
    );
}

#[test]
fn other_files_and_posters_are_not_listed() {
    let mut folder = entry("dir.mp4", Some(1));
    folder.is_file = false;
    let snapshot = Snapshot {
        videos: Folder::Entries(vec![entry("v.MP4", Some(1)), folder, entry("x.txt", Some(1)), entry("y.jpg", Some(1))]),
        images: Folder::Entries(vec![entry("v.jpg", Some(1)), entry("dir.jpg", Some(1)), entry("x.jpg", Some(1))]),
        ppt: Folder::Entries(vec![entry("v.pdf", Some(1)), entry("noext", Some(1))]),
    };
    assert_eq!(names(&MetaStore::new(), &snapshot), vec!["v.MP4", "dir.jpg", "x.jpg", "v.pdf"]);
}

#[test]
fn missing_folders_are_skipped() {
    let snapshot = Snapshot {
        videos: Folder::Missing,
        images: Folder::Entries(vec![entry("a.jpg", Some(1))]),
        ppt: Folder::Missing,
    };
    assert_eq!(names(&MetaStore::new(), &snapshot), vec!["a.jpg"]);
}

#[test]
fn the_first_failure_is_reported() {
    let broken = |name: &str, reason: &str| {
        let mut entry = entry(name, Some(1));
        entry.details = Err(reason.to_string());
        entry
    };
    let snapshot = Snapshot {
        videos: Folder::Entries(vec![broken("z.mp4", "third"), broken("b.mp4", "second"), broken("a.txt", "first")]),
        images: Folder::Unreadable("images".to_string()),
        ppt: Folder::Missing,
    };
    assert!(matches!(list_media(&MetaStore::new(), &snapshot), Err(reason) if reason == "second"));
    let snapshot = Snapshot {
        videos: Folder::Missing,
        images: Folder::Unreadable("images".to_string()),
        ppt: Folder::Unreadable("ppt".to_string()),
    };
    assert!(matches!(list_media(&MetaStore::new(), &snapshot), Err(reason) if reason == "images"));
}

#[test]
fn items_carry_descriptions_and_posters() {
    let mut meta = MetaStore::new();
    meta.insert(
        "v.mp4".to_string(),
        AchievementMeta {
            title: " 标题 ".to_string(),
            owner: "o".to_string(),
            patent_no: "p".to_string(),
            description: "d".to_string(),
            created_at: "1".to_string(),
        },
    );
    meta.insert("i.png".to_string(), AchievementMeta { title: "  ".to_string(), ..AchievementMeta::default() });
    let snapshot = Snapshot {
        videos: Folder::Entries(vec![entry("v.mp4", Some(3))]),
        images: Folder::Entries(vec![entry("i.png", Some(2))]),
        ppt: Folder::Entries(vec![entry("s.pptx", Some(1))]),
    };
    let items = list_media(&meta, &snapshot).ok().unwrap().items;
    assert_eq!(items[0].display_name, " 标题 ");
    assert_eq!(items[0].kind, "video");
    assert_eq!(items[0].type_label, "视频");
    assert_eq!(items[0].folder_label, "视频目录");
    assert_eq!(items[0].url, "/r/v.mp4");
    assert_eq!(items[0].size, 5);
    assert_eq!(items[0].mime_type, "video/mp4");
    assert_eq!(items[0].poster_url, "/r/posters/v.png");
    assert_eq!(items[0].achievement.title, " 标题 ");
    assert_eq!(items[0].achievement.created_at, "1");
    assert_eq!(items[1].display_name, "i");
    assert_eq!(items[1].achievement.title, "i");
    assert_eq!(items[1].poster_url, "");
    assert_eq!(items[2].display_name, "s");
    assert_eq!(items[2].type_label, "PPT");
    assert_eq!(items[2].achievement.owner, "");
}

#[test]
fn names_that_are_not_unicode_are_left_blank() {
    let mut odd = entry("x.jpg", Some(1));
    odd.path = FilePath { name: None, stem: None, extension: Some("JPG".to_string()) };
    let snapshot = Snapshot { videos: Folder::Missing, images: Folder::Entries(vec![odd]), ppt: Folder::Missing };
    let items = list_media(&MetaStore::new(), &snapshot).ok().unwrap().items;
    assert_eq!(items[0].name, "");
    assert_eq!(items[0].display_name, "");
    assert_eq!(items[0].mime_type, "image/jpeg");
}

#[test]
fn stems_of_videos() {
    let mut folder = entry("d.mp4", None);
    folder.is_file = false;
    let videos = Folder::Entries(vec![entry("a.mp4", None), entry("a.MOV", None), folder, entry("b.jpg", None), entry("c.d.webm", None)]);
    assert_eq!(collect_video_stems(&videos), vec!["a", "c.d"]);
    assert!(collect_video_stems(&Folder::Missing).is_empty());
    assert!(collect_video_stems(&Folder::Unreadable("x".to_string())).is_empty());
}

#[test]
fn order_is_stable() {
    let keys: Vec<LatestFirst> = [3, 5, 3, 9, 5].into_iter().map(|millis| LatestFirst { millis }).collect();
    assert_eq!(stable_order(&keys), vec![3, 1, 4, 0, 2]);
    assert!(stable_order(&Vec::<LatestFirst>::new()).is_empty());
}

#[test]
fn bytes_are_ordered_like_words() {
    let samples: Vec<Vec<u8>> = vec![vec![], vec![0], vec![1], vec![1, 0], vec![1, 2], vec![2], vec![255]];
    for a in &samples {
        for b in &samples {
            assert_eq!(bytes_go_before(a, b), a < b);
        }
    }
}
