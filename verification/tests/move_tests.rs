use dcreel::moves::{plan_file_moves, random_destination_name, MoveSource};
use dcreel::selection::PathSet;

fn parts(path: &str) -> Vec<String> {
    let mut components = vec!["/".to_string()];
    components.extend(path.split('/').filter(|part| !part.is_empty()).map(String::from));
    components
}

fn source(path: &str) -> MoveSource {
    MoveSource {
        path: path.to_string(),
        exists: true,
        canonical: Ok(parts(path)),
        identity_key: path.to_string(),
        file_name: path.rsplit('/').next().map(String::from),
    }
}

fn names(plan: &[dcreel::moves::PlannedMove]) -> Vec<(&str, &str)> {
    plan.iter().map(|m| (m.source.as_str(), m.destination_name.as_str())).collect()
}

#[test]
fn same_names_get_distinct_destinations() {
    let sources = vec![source("/root/first/notes.txt"), source("/root/second/notes.txt")];
    let plan = plan_file_moves(&sources, &parts("/root/target"), &PathSet::new(), false).unwrap();
    assert_eq!(
        names(&plan),
        vec![("/root/first/notes.txt", "notes.txt"), ("/root/second/notes.txt", "notes (2).txt")]
    );
}

#[test]
fn names_taken_in_the_target_are_skipped() {
    let mut taken = PathSet::new();
    taken.insert("notes.txt".to_string());
    taken.insert("notes (2).txt".to_string());
    let sources = vec![source("/root/first/notes.txt")];
    let plan = plan_file_moves(&sources, &parts("/root/target"), &taken, false).unwrap();
    assert_eq!(names(&plan), vec![("/root/first/notes.txt", "notes (3).txt")]);
    let mut folded = PathSet::new();
    folded.insert("notes.txt".to_string());
    let sources = vec![source("/root/first/NOTES.txt")];
    let plan = plan_file_moves(&sources, &parts("/root/target"), &folded, true).unwrap();
    assert_eq!(names(&plan), vec![("/root/first/NOTES.txt", "NOTES (2).txt")]);
}

#[test]
fn only_the_outermost_selected_directory_moves() {
    let sources = vec![source("/root/source/nested"), source("/root/source")];
    let plan = plan_file_moves(&sources, &parts("/root/target"), &PathSet::new(), false).unwrap();
    assert_eq!(names(&plan), vec![("/root/source", "source")]);
}

#[test]
fn items_already_in_the_target_and_repeats_are_left_alone() {
    let sources = vec![source("/root/target/inside.txt"), source("/root/a.txt"), source("/root/a.txt")];
    let plan = plan_file_moves(&sources, &parts("/root/target"), &PathSet::new(), false).unwrap();
    assert_eq!(names(&plan), vec![("/root/a.txt", "a.txt")]);
}

#[test]
fn moving_a_folder_into_itself_is_refused() {
    let sources = vec![source("/root/a.txt"), source("/root/target")];
    assert_eq!(
        plan_file_moves(&sources, &parts("/root/target/sub"), &PathSet::new(), false).err(),
        Some("不能把文件夹移动到它自己里面".to_string())
    );
    let sources = vec![source("/root/target")];
    assert!(plan_file_moves(&sources, &parts("/root/target"), &PathSet::new(), false).is_err());
}

#[test]
fn missing_and_unnamed_items_fail_with_their_path() {
    let mut gone = source("/root/gone.txt");
    gone.exists = false;
    assert_eq!(
        plan_file_moves(&vec![gone], &parts("/root/target"), &PathSet::new(), false).err(),
        Some("拖入的项目已经不存在：/root/gone.txt".to_string())
    );
    let mut broken = source("/root/broken");
    broken.canonical = Err("permission denied".to_string());
    assert_eq!(
        plan_file_moves(&vec![broken], &parts("/root/target"), &PathSet::new(), false).err(),
        Some("permission denied".to_string())
    );
    let mut nameless = source("/root/x");
    nameless.file_name = None;
    assert_eq!(
        plan_file_moves(&vec![source("/root/a.txt"), nameless], &parts("/root/target"), &PathSet::new(), false).err(),
        Some("无法识别项目名称：/root/x".to_string())
    );
}

#[test]
fn random_names_are_checked_against_names_given_before() {
    let id = "123e4567-e89b-42d3-a456-426614174000";
    let mut reserved = PathSet::new();
    assert_eq!(random_destination_name("notes", id, &reserved, false), Some(format!("notes-{id}")));
    reserved.insert(format!("notes-{id}"));
    assert_eq!(random_destination_name("notes", id, &reserved, false), None);
    assert_eq!(random_destination_name("NOTES", id, &reserved, true), None);
}
