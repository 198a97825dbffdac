use workshop_cleaner::project::{
    filter_by_type, find_preview_file, manifest_fields, preview_candidates, read_project_json,
    read_projects_parallel, ManifestFields, ManifestFile, PreviewType, ProjectFolder, ProjectInfo,
    WallpaperType,
};
use workshop_cleaner::text::decimal_string;

fn folder_with(text: &str) -> ProjectFolder {
    ProjectFolder { manifest: ManifestFile::Text(text.to_string()), previews: vec![None; 5] }
}

fn project_of_type(kind: &str) -> ProjectInfo {
    ProjectInfo {
        title: "t".to_string(),
        description: String::new(),
        wallpaper_type: kind.to_string(),
        tags: Vec::new(),
        workshop_id: String::new(),
        preview_path: None,
        preview_type: PreviewType::NoPreview,
    }
}

#[test]
fn test_parse_project_json() {
    let json_content = r#"{
            "title": "Test Wallpaper",
            "description": "A test wallpaper",
            "type": "video",
            "tags": ["anime", "cute"],
            "workshopid": "123456789"
        }"#;

    let result = read_project_json(&folder_with(json_content));
    assert!(result.is_ok());

    let info = result.unwrap();
    assert_eq!(info.title, "Test Wallpaper");
    assert_eq!(info.wallpaper_type, "video");
    assert_eq!(info.workshop_id, "123456789");
    assert_eq!(info.tags.len(), 2);
    assert_eq!(info.description, "A test wallpaper");
    assert_eq!(info.tags, vec!["anime", "cute"]);
    assert_eq!(info.preview_path, None);
    assert_eq!(info.preview_type, PreviewType::NoPreview);
}

#[test]
fn test_wallpaper_type() {
    assert_eq!(WallpaperType::from_str("video").to_korean(), "영상");
    assert_eq!(WallpaperType::from_str("web").icon(), "🌐");
}

#[test]
fn wallpaper_type_is_read_in_any_case() {
    assert_eq!(WallpaperType::from_str("SCENE"), WallpaperType::Scene);
    assert_eq!(WallpaperType::from_str("Video"), WallpaperType::Video);
    assert_eq!(WallpaperType::from_str("wEb"), WallpaperType::Web);
    assert_eq!(WallpaperType::from_str("Application"), WallpaperType::Application);
    assert_eq!(WallpaperType::from_str("APP"), WallpaperType::Application);
    assert_eq!(WallpaperType::from_str("app"), WallpaperType::Application);
    assert_eq!(WallpaperType::from_str("movie"), WallpaperType::Unknown);
    assert_eq!(WallpaperType::from_str(""), WallpaperType::Unknown);
    assert_eq!(WallpaperType::from_str(" scene"), WallpaperType::Unknown);
}

#[test]
fn lowercase_names_are_read_as_they_stand() {
    assert_eq!(WallpaperType::from_lowercase("scene"), WallpaperType::Scene);
    assert_eq!(WallpaperType::from_lowercase("video"), WallpaperType::Video);
    assert_eq!(WallpaperType::from_lowercase("web"), WallpaperType::Web);
    assert_eq!(WallpaperType::from_lowercase("application"), WallpaperType::Application);
    assert_eq!(WallpaperType::from_lowercase("app"), WallpaperType::Application);
    assert_eq!(WallpaperType::from_lowercase("Scene"), WallpaperType::Unknown);
    assert_eq!(WallpaperType::from_lowercase("apps"), WallpaperType::Unknown);
}

#[test]
fn every_kind_has_its_name_and_icon() {
    assert_eq!(WallpaperType::Scene.to_korean(), "장면");
    assert_eq!(WallpaperType::Video.to_korean(), "영상");
    assert_eq!(WallpaperType::Web.to_korean(), "웹사이트");
    assert_eq!(WallpaperType::Application.to_korean(), "응용프로그램");
    assert_eq!(WallpaperType::Unknown.to_korean(), "알 수 없음");
    assert_eq!(WallpaperType::Scene.icon(), "🖼️");
    assert_eq!(WallpaperType::Video.icon(), "🎬");
    assert_eq!(WallpaperType::Web.icon(), "🌐");
    assert_eq!(WallpaperType::Application.icon(), "⚙️");
    assert_eq!(WallpaperType::Unknown.icon(), "❓");
}

#[test]
fn manifest_without_fields_gets_the_defaults() {
    let info = read_project_json(&folder_with("{}")).unwrap();
    assert_eq!(info.title, "untitled");
    assert_eq!(info.description, "");
    assert_eq!(info.wallpaper_type, "scene");
    assert!(info.tags.is_empty());
    assert_eq!(info.workshop_id, "");
    assert_eq!(info.preview_path, None);
    assert_eq!(info.preview_type, PreviewType::NoPreview);
}

#[test]
fn manifest_that_is_no_object_gets_the_defaults() {
    let info = read_project_json(&folder_with("[1, 2, 3]")).unwrap();
    assert_eq!(info.title, "untitled");
    assert_eq!(info.wallpaper_type, "scene");
    let text = read_project_json(&folder_with("\"title\"")).unwrap();
    assert_eq!(text.title, "untitled");
}

#[test]
fn fields_of_another_type_count_as_absent() {
    let info = read_project_json(&folder_with(
        r#"{"title": 7, "description": null, "type": ["video"], "tags": "anime", "workshopid": true}"#,
    ))
    .unwrap();
    assert_eq!(info.title, "untitled");
    assert_eq!(info.description, "");
    assert_eq!(info.wallpaper_type, "scene");
    assert!(info.tags.is_empty());
    assert_eq!(info.workshop_id, "");
}

#[test]
fn numeric_workshop_id_is_written_in_decimal() {
    let info = read_project_json(&folder_with(r#"{"workshopid": 2987654321}"#)).unwrap();
    assert_eq!(info.workshop_id, "2987654321");
    let zero = read_project_json(&folder_with(r#"{"workshopid": 0}"#)).unwrap();
    assert_eq!(zero.workshop_id, "0");
    let negative = read_project_json(&folder_with(r#"{"workshopid": -5}"#)).unwrap();
    assert_eq!(negative.workshop_id, "");
    let broken = read_project_json(&folder_with(r#"{"workshopid": 1.5}"#)).unwrap();
    assert_eq!(broken.workshop_id, "");
}

#[test]
fn tags_that_are_no_strings_are_left_out() {
    let info =
        read_project_json(&folder_with(r#"{"tags": ["a", 1, "b", null, ["c"], "d"]}"#)).unwrap();
    assert_eq!(info.tags, vec!["a", "b", "d"]);
}

#[test]
fn manifest_that_does_not_parse_is_an_error() {
    let outcome = read_project_json(&folder_with("{\"title\": "));
    assert_eq!(
        outcome.unwrap_err(),
        "JSON 파싱 실패: EOF while parsing a value at line 1 column 10"
    );
    let empty = read_project_json(&folder_with(""));
    assert_eq!(
        empty.unwrap_err(),
        "JSON 파싱 실패: EOF while parsing a value at line 1 column 0"
    );
}

#[test]
fn missing_or_unreadable_manifest_is_an_error() {
    let missing = ProjectFolder { manifest: ManifestFile::Missing, previews: vec![None; 5] };
    assert_eq!(read_project_json(&missing).unwrap_err(), "project.json 파일이 없습니다");
    let unreadable = ProjectFolder {
        manifest: ManifestFile::Unreadable("stream did not contain valid UTF-8".to_string()),
        previews: Vec::new(),
    };
    assert_eq!(
        read_project_json(&unreadable).unwrap_err(),
        "파일 읽기 실패: stream did not contain valid UTF-8"
    );
}

#[test]
fn fields_are_read_from_the_document() {
    let value = serde_json::from_str::<serde_json::Value>(
        r#"{"title": "T", "type": "web", "workshopid": 42, "tags": ["x", 2]}"#,
    )
    .unwrap();
    let fields = manifest_fields(&value);
    assert_eq!(fields.title, Some("T".to_string()));
    assert_eq!(fields.description, None);
    assert_eq!(fields.wallpaper_type, Some("web".to_string()));
    assert_eq!(fields.workshop_text, None);
    assert_eq!(fields.workshop_number, Some(42));
    assert_eq!(fields.tags, Some(vec![Some("x".to_string()), None]));
}

#[test]
fn project_is_made_from_fields() {
    let fields = ManifestFields {
        title: None,
        description: Some("d".to_string()),
        wallpaper_type: None,
        workshop_text: Some("abc".to_string()),
        workshop_number: Some(9),
        tags: Some(vec![None, Some("one".to_string()), None, Some("two".to_string())]),
    };
    let project = ProjectInfo::from_fields(
        &fields,
        (Some("/p/preview.gif".to_string()), PreviewType::Gif),
    );
    assert_eq!(project.title, "untitled");
    assert_eq!(project.description, "d");
    assert_eq!(project.wallpaper_type, "scene");
    assert_eq!(project.workshop_id, "abc");
    assert_eq!(project.tags, vec!["one", "two"]);
    assert_eq!(project.preview_path, Some("/p/preview.gif".to_string()));
    assert_eq!(project.preview_type, PreviewType::Gif);
}

#[test]
fn preview_is_the_first_candidate_that_exists() {
    assert_eq!(
        preview_candidates(),
        vec!["preview.mp4", "preview.gif", "preview.jpg", "preview.png", "preview.jpeg"]
    );
    let path = |name: &str| Some(format!("/p/{}", name));
    assert_eq!(
        find_preview_file(&vec![path("preview.mp4"), path("preview.gif"), None, None, None]),
        (path("preview.mp4"), PreviewType::Video)
    );
    assert_eq!(
        find_preview_file(&vec![None, path("preview.gif"), path("preview.jpg"), None, None]),
        (path("preview.gif"), PreviewType::Gif)
    );
    assert_eq!(
        find_preview_file(&vec![None, None, path("preview.jpg"), path("preview.png"), None]),
        (path("preview.jpg"), PreviewType::Image)
    );
    assert_eq!(
        find_preview_file(&vec![None, None, None, path("preview.png"), None]),
        (path("preview.png"), PreviewType::Image)
    );
    assert_eq!(
        find_preview_file(&vec![None, None, None, None, path("preview.jpeg")]),
        (path("preview.jpeg"), PreviewType::Image)
    );
    assert_eq!(find_preview_file(&vec![None; 5]), (None, PreviewType::NoPreview));
    assert_eq!(find_preview_file(&Vec::new()), (None, PreviewType::NoPreview));
    assert_eq!(
        find_preview_file(&vec![None, None, None, None, None, path("preview.webm")]),
        (None, PreviewType::NoPreview)
    );
}

#[test]
fn project_carries_its_preview() {
    let folder = ProjectFolder {
        manifest: ManifestFile::Text(r#"{"title": "With preview"}"#.to_string()),
        previews: vec![None, None, None, Some("/w/1/preview.png".to_string()), None],
    };
    let info = read_project_json(&folder).unwrap();
    assert_eq!(info.title, "With preview");
    assert_eq!(info.preview_path, Some("/w/1/preview.png".to_string()));
    assert_eq!(info.preview_type, PreviewType::Image);
}

#[test]
fn many_folders_are_read_one_by_one() {
    let projects = read_projects_parallel(vec![
        folder_with(r#"{"title": "first"}"#),
        ProjectFolder { manifest: ManifestFile::Missing, previews: Vec::new() },
        folder_with("not json"),
        folder_with(r#"{"title": "last", "type": "web"}"#),
    ]);
    assert_eq!(projects.len(), 4);
    assert_eq!(projects[0].as_ref().unwrap().title, "first");
    assert!(projects[1].is_none());
    assert!(projects[2].is_none());
    assert_eq!(projects[3].as_ref().unwrap().title, "last");
    assert_eq!(projects[3].as_ref().unwrap().wallpaper_type, "web");
    assert!(read_projects_parallel(Vec::new()).is_empty());
}

#[test]
fn filter_keeps_the_projects_of_one_kind() {
    let items = vec![
        ("1".to_string(), project_of_type("video")),
        ("2".to_string(), project_of_type("scene")),
        ("3".to_string(), project_of_type("VIDEO")),
        ("4".to_string(), project_of_type("app")),
        ("5".to_string(), project_of_type("strange")),
    ];
    let videos = filter_by_type(items.clone(), WallpaperType::Video);
    let ids: Vec<&str> = videos.iter().map(|item| item.0.as_str()).collect();
    assert_eq!(ids, vec!["1", "3"]);
    assert_eq!(videos[1].1.wallpaper_type, "VIDEO");
    let apps = filter_by_type(items.clone(), WallpaperType::Application);
    assert_eq!(apps.len(), 1);
    assert_eq!(apps[0].0, "4");
    let unknown = filter_by_type(items.clone(), WallpaperType::Unknown);
    assert_eq!(unknown.len(), 1);
    assert_eq!(unknown[0].0, "5");
    assert!(filter_by_type(items, WallpaperType::Web).is_empty());
    assert!(filter_by_type(Vec::new(), WallpaperType::Scene).is_empty());
}

#[test]
fn numbers_are_written_in_decimal() {
    assert_eq!(decimal_string(0), "0");
    assert_eq!(decimal_string(7), "7");
    assert_eq!(decimal_string(10), "10");
    assert_eq!(decimal_string(431960), "431960");
    assert_eq!(decimal_string(u64::MAX), "18446744073709551615");
}
