use tjipe_showcase::copying::{CopyAction, CopyWalk, Opened};
use tjipe_showcase::setup::{
    initialize_resources, is_seed, resources_dir, setup_folders, SeedSource, SetupState, RESOURCES_FOLDER,
};

#[test]
fn resources_lie_in_the_first_known_folder() {
    assert_eq!(resources_dir(Some("a"), Some("l"), Some("i"), "."), "a");
    assert_eq!(resources_dir(None, Some("l"), Some("i"), "."), "l");
    assert_eq!(resources_dir(None, None, Some("i"), "."), "i");
    assert_eq!(resources_dir(None, None, None, "."), ".");
    assert_eq!(RESOURCES_FOLDER, "resources");
}

#[test]
fn folders_are_created() {
    assert_eq!(setup_folders(), vec!["videos", "images", "ppt", "posters"]);
}

fn state(folders: Vec<Option<Vec<bool>>>, has_descriptions: bool) -> SetupState {
    SetupState { folders, has_descriptions, installed_known: true, working_known: true }
}

#[test]
fn only_an_untouched_folder_is_filled() {
    let all = vec![SeedSource::Installed, SeedSource::Working, SeedSource::WorkingDebug];
    assert_eq!(initialize_resources(&state(vec![Some(vec![]), None, Some(vec![false])], false)), all);
    assert!(initialize_resources(&state(vec![], true)).is_empty());
    assert!(initialize_resources(&state(vec![None, Some(vec![false, true])], false)).is_empty());
    let known = SetupState { folders: vec![], has_descriptions: false, installed_known: false, working_known: true };
    assert_eq!(initialize_resources(&known), vec![SeedSource::Working, SeedSource::WorkingDebug]);
    let known = SetupState { folders: vec![], has_descriptions: false, installed_known: true, working_known: false };
    assert_eq!(initialize_resources(&known), vec![SeedSource::Installed]);
}

#[test]
fn sources_are_there_and_elsewhere() {
    assert!(is_seed(true, false));
    assert!(!is_seed(true, true));
    assert!(!is_seed(false, false));
}

/// Copies `a` with the entries `f` (new), `d` (a folder with `g`, new) and `h`
/// (there already); the copy of `fails` fails.
fn copied(fails: &str) -> (Vec<String>, Result<(), String>) {
    let mut walk = CopyWalk::new("a".to_string(), "b".to_string());
    let mut files = Vec::new();
    let pair = |from: &str, to: &str, name: &str| Ok((format!("{}/{}", from, name), format!("{}/{}", to, name)));
    loop {
        match walk.next() {
            CopyAction::Open { from, to } => walk.opened(match from.as_str() {
                "a" => Opened::Entries(vec![pair(&from, &to, "f"), pair(&from, &to, "d"), pair(&from, &to, "h")]),
                "a/d" => Opened::Entries(vec![pair(&from, &to, "g"), pair(&from, &to, "e")]),
                _ => Opened::Missing,
            }),
            CopyAction::Inspect { from, to } => {
                let is_folder = from == "a/d" || from == "a/d/e";
                let there = to == "b/h";
                walk.inspected(from, to, is_folder, there);
            }
            CopyAction::Copy { from, to } => {
                if from == fails {
                    walk.copied(Err("no space".to_string()));
                } else {
                    files.push(to);
                    walk.copied(Ok(()));
                }
            }
            CopyAction::Done => return (files, Ok(())),
            CopyAction::Failed { reason } => return (files, Err(reason)),
        }
    }
}

#[test]
fn folders_are_merged_without_replacing_files() {
    assert_eq!(copied(""), (vec!["b/f".to_string(), "b/d/g".to_string()], Ok(())));
}

#[test]
fn a_failure_ends_the_copy() {
    assert_eq!(copied("a/d/g"), (vec!["b/f".to_string()], Err("no space".to_string())));
    let mut walk: CopyWalk<u8> = CopyWalk::new(1, 2);
    assert!(matches!(walk.next(), CopyAction::Open { from: 1, to: 2 }));
    walk.opened(Opened::Entries(vec![Ok((3, 4)), Err("unreadable".to_string()), Ok((5, 6))]));
    assert!(matches!(walk.next(), CopyAction::Inspect { from: 3, to: 4 }));
    walk.inspected(3, 4, false, true);
    assert!(matches!(walk.next(), CopyAction::Failed { reason } if reason == "unreadable"));
    assert!(matches!(walk.next(), CopyAction::Done));
    let mut walk: CopyWalk<u8> = CopyWalk::new(1, 2);
    walk.next();
    walk.opened(Opened::Failed("denied".to_string()));
    assert!(matches!(walk.next(), CopyAction::Failed { reason } if reason == "denied"));
    assert!(matches!(walk.next(), CopyAction::Done));
}

/// Copies the files of a flat folder to where they are not yet.
fn seed(source: &str, files: &[&str], there: &mut Vec<(String, String)>) {
    let mut walk = CopyWalk::new(source.to_string(), String::new());
    loop {
        match walk.next() {
            CopyAction::Open { .. } => walk.opened(Opened::Entries(
                files.iter().map(|name| Ok((source.to_string(), name.to_string()))).collect(),
            )),
            CopyAction::Inspect { from, to } => {
                let taken = there.iter().any(|(name, _)| *name == to);
                walk.inspected(from, to, false, taken);
            }
            CopyAction::Copy { from, to } => {
                there.push((to, from));
                walk.copied(Ok(()));
            }
            CopyAction::Done => return,
            CopyAction::Failed { reason } => panic!("{}", reason),
        }
    }
}

#[test]
fn later_sources_add_what_is_missing() {
    let mut there: Vec<(String, String)> = Vec::new();
    seed("one", &["a", "b"], &mut there);
    seed("two", &["b", "c"], &mut there);
    let pair = |name: &str, source: &str| (name.to_string(), source.to_string());
    assert_eq!(there, vec![pair("a", "one"), pair("b", "one"), pair("c", "two")]);
}
