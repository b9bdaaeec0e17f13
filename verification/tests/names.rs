use tjipe_showcase::names::{first_free_name, normalize_filename, unique_file_path, FilePath};

fn parts(path: &FilePath) -> (Option<&str>, Option<&str>, Option<&str>) {
    (path.name.as_deref(), path.stem.as_deref(), path.extension.as_deref())
}

#[test]
fn parts_of_plain_names() {
    assert_eq!(parts(&FilePath::of("a.mp4")), (Some("a.mp4"), Some("a"), Some("mp4")));
    assert_eq!(parts(&FilePath::of("a.b.mp4")), (Some("a.b.mp4"), Some("a.b"), Some("mp4")));
    assert_eq!(parts(&FilePath::of(".hidden")), (Some(".hidden"), Some(".hidden"), None));
    assert_eq!(parts(&FilePath::of("..a")), (Some("..a"), Some("."), Some("a")));
    assert_eq!(parts(&FilePath::of("none")), (Some("none"), Some("none"), None));
    assert_eq!(parts(&FilePath::of("a.")), (Some("a."), Some("a"), Some("")));
    assert_eq!(parts(&FilePath::of("成果.PDF")), (Some("成果.PDF"), Some("成果"), Some("PDF")));
}

#[test]
fn parts_agree_with_std() {
    for sample in ["", ".", "..", "a/b.mp4", "a/b.mp4/", "a/..", "/", "x.", ".x.y", "a//b", "...", "a/.", "一 二.三"] {
        let std_path = std::path::Path::new(sample);
        let path = FilePath::of(sample);
        assert_eq!(path.name.as_deref(), std_path.file_name().and_then(|v| v.to_str()), "{}", sample);
        assert_eq!(path.stem.as_deref(), std_path.file_stem().and_then(|v| v.to_str()), "{}", sample);
        assert_eq!(path.extension.as_deref(), std_path.extension().and_then(|v| v.to_str()), "{}", sample);
    }
    assert_eq!(FilePath::of("").stem_or_empty(), "");
    assert_eq!(FilePath::of("a").extension_or_empty(), "");
}

#[test]
fn normalize_replaces_other_characters() {
    assert_eq!(normalize_filename("  ..成果 一/a.MP4 "), "成果_一_a.MP4");
    assert_eq!(normalize_filename("a b(1).png"), "a_b_1_.png");
    assert_eq!(normalize_filename("Ünï-c_ode.jpg"), "_n_-c_ode.jpg");
    assert_eq!(normalize_filename("\u{4e00}\u{9fff}\u{a000}\u{4dff}"), "\u{4e00}\u{9fff}__");
}

#[test]
fn normalize_never_gives_an_empty_name() {
    assert_eq!(normalize_filename(""), "achievement_file");
    assert_eq!(normalize_filename(" ... "), "achievement_file");
    assert_eq!(normalize_filename("/"), "_");
}

#[test]
fn normalize_twice_is_normalize_once() {
    for sample in ["", " .a b", "成果?.mp4", "...x..y"] {
        let once = normalize_filename(sample);
        assert_eq!(normalize_filename(&once), once);
    }
}

#[test]
fn unique_name_is_the_first_free_one() {
    let mut taken: Vec<String> = Vec::new();
    assert_eq!(unique_file_path("a.mp4", &taken), "a.mp4");
    taken.push("a.mp4".to_string());
    assert_eq!(unique_file_path("a.mp4", &taken), "a_1.mp4");
    taken.push("a_2.mp4".to_string());
    assert_eq!(unique_file_path("a.mp4", &taken), "a_1.mp4");
    taken.push("a_1.mp4".to_string());
    assert_eq!(unique_file_path("a.mp4", &taken), "a_3.mp4");
}

#[test]
fn unique_name_counts_on() {
    let mut taken: Vec<String> = Vec::new();
    for _ in 0..12 {
        let next = unique_file_path("x.png", &taken);
        assert!(!taken.contains(&next));
        taken.push(next);
    }
    assert_eq!(taken[11], "x_11.png");
}

#[test]
fn unique_name_without_extension() {
    let taken = vec!["notes".to_string()];
    assert_eq!(unique_file_path("notes", &taken), "notes_1");
    let taken = vec!["a.".to_string()];
    assert_eq!(unique_file_path("a.", &taken), "a_1");
}

#[test]
fn unique_name_without_stem() {
    let taken = vec!["..".to_string()];
    assert_eq!(unique_file_path("..", &taken), "achievement_file_1");
    let path = FilePath { name: None, stem: None, extension: Some("jpg".to_string()) };
    assert_eq!(first_free_name("..", &path, &taken), "achievement_file_1.jpg");
}

#[test]
fn names_are_probed_one_by_one() {
    let there = ["a.png", "a_1.png", "a_3.png"];
    let mut taken: Vec<String> = Vec::new();
    let name = loop {
        let name = unique_file_path("a.png", &taken);
        if !there.contains(&name.as_str()) {
            break name;
        }
        taken.push(name);
    };
    assert_eq!(name, "a_2.png");
    let all = there.iter().map(|name| name.to_string()).collect();
    assert_eq!(unique_file_path("a.png", &all), name);
}

#[test]
fn the_last_component_is_the_file_name() {
    let name = |path: &str| FilePath::of(path).name;
    assert_eq!(name("a/b.mp4"), Some("b.mp4".to_string()));
    assert_eq!(name("/usr/bin/"), Some("bin".to_string()));
    assert_eq!(name("a//b/.//"), Some("b".to_string()));
    assert_eq!(name("./a"), Some("a".to_string()));
    assert_eq!(name("a/.."), None);
    assert_eq!(name("../."), None);
    assert_eq!(name("./."), None);
    assert_eq!(name("/"), None);
    assert_eq!(unique_file_path("x/a.png", &vec!["x/a.png".to_string()]), "a_1.png");
    assert_eq!(unique_file_path("..", &vec!["..".to_string()]), "achievement_file_1");
}

#[test]
fn names_may_hold_colons() {
    let path = FilePath::of("10:30.mp4");
    assert_eq!(parts(&path), (Some("10:30.mp4"), Some("10:30"), Some("mp4")));
    assert_eq!(FilePath::of("x/a: b.png").name, Some("a: b.png".to_string()));
    assert_eq!(unique_file_path("10:30.mp4", &vec!["10:30.mp4".to_string()]), "10:30_1.mp4");
}
