use workshop_cleaner::file_ops::{
    copy_failure_message, copy_folder, delete_paths, deletion_order, get_total_size,
    move_to_trash, path_depth, plan_removal, read_only_targets, Attempt, CopyAction, CopyFailure,
    Outcome, PathKind, Removal, RemovalPlan,
};
use workshop_cleaner::walk::{Entry, EntryKind, Listing};

fn entry(path: &str, kind: EntryKind, depth: usize, size: u64) -> Entry {
    Entry {
        path: path.to_string(),
        name: path.rsplit('/').next().unwrap_or(path).to_string(),
        kind,
        depth,
        size,
        parent: None,
    }
}

fn attempt(path: &str, outcome: Outcome) -> Attempt {
    Attempt { path: path.to_string(), outcome }
}

fn strings(items: &[&str]) -> Vec<String> {
    items.iter().map(|s| s.to_string()).collect()
}

#[test]
fn test_delete_file() {
    let file_path = "/tmp/work/test.txt".to_string();
    assert_eq!(plan_removal(PathKind::File, false).unwrap().removal, Removal::File);

    let result = delete_paths(vec![attempt(&file_path, Outcome::Removed)], '/');
    assert!(result.is_ok());

    let delete_result = result.unwrap();
    assert_eq!(delete_result.success, 1);
    assert_eq!(delete_result.failed, 0);
    assert!(delete_result.failed_items.is_empty());
}

#[test]
fn test_delete_folder() {
    let folder_path = "/tmp/work/test_folder".to_string();
    assert_eq!(plan_removal(PathKind::Folder, false).unwrap().removal, Removal::Folder);

    let result = delete_paths(vec![attempt(&folder_path, Outcome::Removed)], '/');
    assert!(result.is_ok());

    let delete_result = result.unwrap();
    assert_eq!(delete_result.success, 1);
    assert!(delete_result.failed_items.is_empty());
}

#[test]
fn depth_counts_separators() {
    assert_eq!(path_depth("/root/b/sub", '/'), 3);
    assert_eq!(path_depth("/root/b", '/'), 2);
    assert_eq!(path_depth("plain", '/'), 0);
    assert_eq!(path_depth("", '/'), 0);
    assert_eq!(path_depth("C:\\a\\b", '\\'), 2);
    assert_eq!(path_depth("C:\\a\\b", '/'), 0);
    assert_eq!(path_depth("//", '/'), 2);
}

#[test]
fn nested_folder_is_deleted_before_its_parent() {
    let order = deletion_order(&strings(&["/root/b", "/root/b/sub"]), '/');
    assert_eq!(order, vec!["/root/b/sub", "/root/b"]);
    let outcome = delete_paths(
        vec![attempt(&order[0], Outcome::Removed), attempt(&order[1], Outcome::Removed)],
        '/',
    )
    .unwrap();
    assert_eq!(outcome.success, 2);
    assert_eq!(outcome.failed, 0);
    assert!(outcome.failed_items.is_empty());
}

#[test]
fn nested_file_is_deleted_before_its_folder() {
    let order = deletion_order(&strings(&["/data/folder", "/data/folder/inner/file.bin"]), '/');
    assert_eq!(order, vec!["/data/folder/inner/file.bin", "/data/folder"]);
    let outcome = delete_paths(
        vec![attempt(&order[0], Outcome::Removed), attempt(&order[1], Outcome::Removed)],
        '/',
    )
    .unwrap();
    assert_eq!(outcome.success, 2);
    assert_eq!(outcome.failed, 0);
}

#[test]
fn deletion_order_is_deepest_first_and_stable() {
    let order = deletion_order(&strings(&["/a", "/x/y/z", "/b", "/p/q", "/c/d", "/m/n/o"]), '/');
    assert_eq!(order, vec!["/x/y/z", "/m/n/o", "/p/q", "/c/d", "/a", "/b"]);
    assert!(deletion_order(&Vec::new(), '/').is_empty());
    let twice = deletion_order(&strings(&["/same", "/same"]), '/');
    assert_eq!(twice, vec!["/same", "/same"]);
}

#[test]
fn deletion_order_goes_by_the_given_separator() {
    let order = deletion_order(&strings(&["C:\\a", "C:\\a\\b\\c", "C:\\a\\b"]), '\\');
    assert_eq!(order, vec!["C:\\a\\b\\c", "C:\\a\\b", "C:\\a"]);
    let flat = deletion_order(&strings(&["C:\\a", "C:\\a\\b\\c", "C:\\a\\b"]), '/');
    assert_eq!(flat, vec!["C:\\a", "C:\\a\\b\\c", "C:\\a\\b"]);
}

#[test]
fn missing_path_is_a_failure_of_its_own() {
    let outcome = delete_paths(
        vec![
            attempt("/keep/one", Outcome::Removed),
            attempt("/gone", Outcome::Missing),
            attempt("/keep/two", Outcome::Removed),
        ],
        '/',
    )
    .unwrap();
    assert_eq!(outcome.success, 2);
    assert_eq!(outcome.failed, 1);
    assert_eq!(outcome.failed_items.len(), 1);
    assert_eq!(outcome.failed_items[0].path, "/gone");
    assert_eq!(outcome.failed_items[0].error, "경로가 존재하지 않습니다");

    let without = delete_paths(
        vec![attempt("/keep/one", Outcome::Removed), attempt("/keep/two", Outcome::Removed)],
        '/',
    )
    .unwrap();
    assert_eq!(without.success, outcome.success);
    assert_eq!(without.failed + 1, outcome.failed);
}

#[test]
fn failed_removal_is_listed_with_its_reason() {
    let outcome = delete_paths(
        vec![
            attempt("/locked", Outcome::Failed("Permission denied (os error 13)".to_string())),
            attempt("/fine", Outcome::Removed),
            attempt("/nowhere", Outcome::Missing),
        ],
        '/',
    )
    .unwrap();
    assert_eq!(outcome.success, 1);
    assert_eq!(outcome.failed, 2);
    assert_eq!(outcome.failed_items[0].path, "/locked");
    assert_eq!(outcome.failed_items[0].error, "삭제 실패: Permission denied (os error 13)");
    assert_eq!(outcome.failed_items[1].path, "/nowhere");
    assert_eq!(outcome.failed_items[1].error, "경로가 존재하지 않습니다");
    assert_eq!(outcome.success + outcome.failed, 3);
}

#[test]
fn failures_are_listed_deepest_first() {
    let outcome = delete_paths(
        vec![
            attempt("/a", Outcome::Missing),
            attempt("/a/b/c", Outcome::Failed("busy".to_string())),
            attempt("/a/b", Outcome::Removed),
            attempt("/x/y", Outcome::Missing),
        ],
        '/',
    )
    .unwrap();
    assert_eq!(outcome.success, 1);
    assert_eq!(outcome.failed, 3);
    let listed: Vec<(&str, &str)> = outcome
        .failed_items
        .iter()
        .map(|item| (item.path.as_str(), item.error.as_str()))
        .collect();
    assert_eq!(
        listed,
        vec![
            ("/a/b/c", "삭제 실패: busy"),
            ("/x/y", "경로가 존재하지 않습니다"),
            ("/a", "경로가 존재하지 않습니다"),
        ]
    );
}

#[test]
fn empty_batch_gives_an_empty_result() {
    let outcome = delete_paths(Vec::new(), '/').unwrap();
    assert_eq!(outcome.success, 0);
    assert_eq!(outcome.failed, 0);
    assert!(outcome.failed_items.is_empty());
}

#[test]
fn kind_of_path_goes_by_the_probe() {
    assert_eq!(PathKind::of(false, false), PathKind::Missing);
    assert_eq!(PathKind::of(false, true), PathKind::Missing);
    assert_eq!(PathKind::of(true, true), PathKind::File);
    assert_eq!(PathKind::of(true, false), PathKind::Folder);
}

#[test]
fn removal_plan_follows_the_kind_of_path() {
    assert_eq!(plan_removal(PathKind::Missing, true), None);
    assert_eq!(plan_removal(PathKind::Missing, false), None);
    assert_eq!(
        plan_removal(PathKind::File, true),
        Some(RemovalPlan { clear_read_only: true, removal: Removal::File })
    );
    assert_eq!(
        plan_removal(PathKind::File, false),
        Some(RemovalPlan { clear_read_only: false, removal: Removal::File })
    );
    assert_eq!(
        plan_removal(PathKind::Folder, true),
        Some(RemovalPlan { clear_read_only: true, removal: Removal::Folder })
    );
    assert_eq!(
        plan_removal(PathKind::Folder, false),
        Some(RemovalPlan { clear_read_only: false, removal: Removal::Folder })
    );
}

#[test]
fn read_only_is_cleared_on_every_file_of_a_folder() {
    let walk = Listing::new(vec![
        entry("/f", EntryKind::Directory, 0, 0),
        entry("/f/a.txt", EntryKind::File, 1, 1),
        entry("/f/sub", EntryKind::Directory, 1, 0),
        entry("/f/sub/link", EntryKind::Other, 2, 0),
        entry("/f/sub/b.txt", EntryKind::File, 2, 2),
    ])
    .unwrap();
    assert_eq!(read_only_targets(&walk), vec!["/f/a.txt", "/f/sub/b.txt"]);
    assert!(read_only_targets(&Listing::new(Vec::new()).unwrap()).is_empty());
}

#[test]
fn total_size_is_reachable_from_file_ops() {
    let walk = Listing::new(vec![
        entry("/f", EntryKind::Directory, 0, 0),
        entry("/f/a.txt", EntryKind::File, 1, 11),
        entry("/g.bin", EntryKind::File, 0, 31),
    ])
    .unwrap();
    assert_eq!(get_total_size(&walk), 42);
}

#[test]
fn trash_is_not_offered() {
    let result = move_to_trash(strings(&["/a", "/b"]));
    assert_eq!(result.unwrap_err(), "휴지통 기능은 현재 비활성화되어 있습니다");
    assert!(move_to_trash(Vec::new()).is_err());
}

#[test]
fn copy_needs_a_source_folder() {
    let empty = Listing::new(Vec::new()).unwrap();
    assert_eq!(
        copy_folder(PathKind::Missing, &empty).unwrap_err(),
        "소스 폴더가 존재하지 않습니다"
    );
    assert_eq!(copy_folder(PathKind::File, &empty).unwrap_err(), "소스가 폴더가 아닙니다");
    assert!(copy_folder(PathKind::Folder, &empty).unwrap().is_empty());
}

#[test]
fn copy_plan_has_one_action_for_each_entry() {
    let walk = Listing::new(vec![
        entry("/src", EntryKind::Directory, 0, 0),
        entry("/src/a.txt", EntryKind::File, 1, 1),
        entry("/src/sub", EntryKind::Directory, 1, 0),
        entry("/src/sub/link", EntryKind::Other, 2, 0),
    ])
    .unwrap();
    assert_eq!(
        copy_folder(PathKind::Folder, &walk).unwrap(),
        vec![
            CopyAction::CreateFolder,
            CopyAction::CopyFile,
            CopyAction::CreateFolder,
            CopyAction::CopyFile,
        ]
    );
}

#[test]
fn copy_failures_have_their_messages() {
    let denied = "denied".to_string();
    assert_eq!(
        copy_failure_message(&CopyFailure::Destination(denied.clone())),
        "대상 폴더 생성 실패: denied"
    );
    assert_eq!(
        copy_failure_message(&CopyFailure::FolderName),
        "폴더 이름을 가져올 수 없습니다"
    );
    assert_eq!(
        copy_failure_message(&CopyFailure::Target(denied.clone())),
        "타겟 폴더 생성 실패: denied"
    );
    assert_eq!(
        copy_failure_message(&CopyFailure::RelativePath(denied.clone())),
        "경로 처리 실패: denied"
    );
    assert_eq!(
        copy_failure_message(&CopyFailure::Folder {
            path: "/t/sub".to_string(),
            reason: denied.clone()
        }),
        "폴더 생성 실패 /t/sub: denied"
    );
    assert_eq!(
        copy_failure_message(&CopyFailure::ParentFolder(denied.clone())),
        "부모 폴더 생성 실패: denied"
    );
    assert_eq!(
        copy_failure_message(&CopyFailure::File { path: "/s/a.txt".to_string(), reason: denied }),
        "파일 복사 실패 /s/a.txt: denied"
    );
}
