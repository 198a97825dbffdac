//! Wallpaper projects: the kinds of wallpaper, the manifest of a project and
//! its preview file.

use vstd::prelude::*;
use crate::json::{
    as_items, as_number, as_text, error_text, json_error_text, json_items, json_member,
    json_number, json_parsed, json_text, member, parse_json,
};
use crate::text::{
    copy_optional_text, decimal_string, decimal_text, join_text, lowercase, lowercase_text,
    same_text, text_of, text_views,
};
use crate::probe::{
    first_found, first_present, option_views, present_strings, present_texts,
};

verus! {

/// Where the preview of a project comes from.
#[derive(Debug, Clone, Copy, PartialEq, Eq, Structural)]
pub enum PreviewType {
    /// A still picture.
    Image,
    /// An animated picture.
    Gif,
    Video,
    /// The project has no preview file.
    NoPreview,
}

/// The kind of a wallpaper.
#[derive(Debug, Clone, Copy, PartialEq, Eq, Structural)]
pub enum WallpaperType {
    Scene,
    Video,
    Web,
    Application,
    Unknown,
}

/// The kind that a lowercase name stands for.
pub open spec fn wallpaper_type_of(lower: Seq<char>) -> WallpaperType {
    if lower == "scene"@ {
        WallpaperType::Scene
    } else if lower == "video"@ {
        WallpaperType::Video
    } else if lower == "web"@ {
        WallpaperType::Web
    } else if lower == "application"@ || lower == "app"@ {
        WallpaperType::Application
    } else {
        WallpaperType::Unknown
    }
}

/// The Korean name of a kind.
pub open spec fn korean_name(kind: WallpaperType) -> Seq<char> {
    match kind {
        WallpaperType::Scene => "장면"@,
        WallpaperType::Video => "영상"@,
        WallpaperType::Web => "웹사이트"@,
        WallpaperType::Application => "응용프로그램"@,
        WallpaperType::Unknown => "알 수 없음"@,
    }
}

/// The icon of a kind.
pub open spec fn icon_of(kind: WallpaperType) -> Seq<char> {
    match kind {
        WallpaperType::Scene => "🖼️"@,
        WallpaperType::Video => "🎬"@,
        WallpaperType::Web => "🌐"@,
        WallpaperType::Application => "⚙️"@,
        WallpaperType::Unknown => "❓"@,
    }
}

impl WallpaperType {
    /// The kind named by `lower`, a name already in lowercase: `scene`,
    /// `video`, `web`, `application` or `app`; any other name is `Unknown`.
    pub fn from_lowercase(lower: &str) -> (kind: WallpaperType)
        ensures
            kind == wallpaper_type_of(lower@),
    {
        if same_text(lower, "scene") {
            WallpaperType::Scene
        } else if same_text(lower, "video") {
            WallpaperType::Video
        } else if same_text(lower, "web") {
            WallpaperType::Web
        } else if same_text(lower, "application") || same_text(lower, "app") {
            WallpaperType::Application
        } else {
            WallpaperType::Unknown
        }
    }

    /// The kind named by `s`, whatever its case.
    pub fn from_str(s: &str) -> (kind: WallpaperType)
        ensures
            kind == wallpaper_type_of(lowercase_text(s@)),
    {
        let lower = lowercase(s);
        WallpaperType::from_lowercase(lower.as_str())
    }

    /// The Korean name of the kind.
    pub fn to_korean(&self) -> (name: &'static str)
        ensures
            name@ == korean_name(*self),
    {
        match self {
            WallpaperType::Scene => "장면",
            WallpaperType::Video => "영상",
            WallpaperType::Web => "웹사이트",
            WallpaperType::Application => "응용프로그램",
            WallpaperType::Unknown => "알 수 없음",
        }
    }

    /// The icon shown for the kind.
    pub fn icon(&self) -> (icon: &'static str)
        ensures
            icon@ == icon_of(*self),
    {
        match self {
            WallpaperType::Scene => "🖼️",
            WallpaperType::Video => "🎬",
            WallpaperType::Web => "🌐",
            WallpaperType::Application => "⚙️",
            WallpaperType::Unknown => "❓",
        }
    }
}

/// The file names under which a preview is looked for, in the order of
/// preference: video first, then animated picture, then still pictures.
pub open spec fn preview_names() -> Seq<Seq<char>> {
    seq!["preview.mp4"@, "preview.gif"@, "preview.jpg"@, "preview.png"@, "preview.jpeg"@]
}

/// The kind of preview that the name at `place` of `preview_names` holds.
pub open spec fn preview_type_at(place: int) -> PreviewType {
    if place == 0 {
        PreviewType::Video
    } else if place == 1 {
        PreviewType::Gif
    } else {
        PreviewType::Image
    }
}

/// The preview chosen from what the probes found: the first file that
/// exists, by the order of `preview_names`, with its kind; none if no file
/// exists. `found` holds one probe for each name: the path of the file if
/// it exists.
pub open spec fn preview_choice(found: Seq<Option<Seq<char>>>) -> (Option<Seq<char>>, PreviewType) {
    match first_present(found, 5) {
        Some(place) => (found[place], preview_type_at(place)),
        None => (None, PreviewType::NoPreview),
    }
}

/// The file names to probe for a preview, in the order of preference.
pub fn preview_candidates() -> (names: Vec<String>)
    ensures
        text_views(names@) == preview_names(),
{
    let mut names: Vec<String> = Vec::new();
    names.push(String::from_str("preview.mp4"));
    names.push(String::from_str("preview.gif"));
    names.push(String::from_str("preview.jpg"));
    names.push(String::from_str("preview.png"));
    names.push(String::from_str("preview.jpeg"));
    assert(text_views(names@) =~= preview_names());
    names
}

/// Picks the preview of a project. `found` holds, for each name of
/// `preview_candidates` in order, the path of that file in the project
/// folder if it exists. The first that exists wins.
pub fn find_preview_file(found: &Vec<Option<String>>) -> (preview: (Option<String>, PreviewType))
    ensures
        (text_of(preview.0), preview.1) == preview_choice(option_views(found@)),
{
    match first_found(found, 5) {
        Some(place) => {
            let kind = if place == 0 {
                PreviewType::Video
            } else if place == 1 {
                PreviewType::Gif
            } else {
                PreviewType::Image
            };
            proof {
                crate::probe::lemma_first_present(option_views(found@), 5, 0);
            }
            (copy_optional_text(&found[place]), kind)
        },
        None => (None, PreviewType::NoPreview),
    }
}

/// What is known of a wallpaper project.
#[derive(Debug, Clone)]
pub struct ProjectInfo {
    pub title: String,
    pub description: String,
    /// The kind of wallpaper, as the manifest names it.
    pub wallpaper_type: String,
    pub tags: Vec<String>,
    pub workshop_id: String,
    pub preview_path: Option<String>,
    pub preview_type: PreviewType,
}

/// The mathematical value of a `ProjectInfo`.
pub struct ProjectInfoView {
    pub title: Seq<char>,
    pub description: Seq<char>,
    pub wallpaper_type: Seq<char>,
    pub tags: Seq<Seq<char>>,
    pub workshop_id: Seq<char>,
    pub preview_path: Option<Seq<char>>,
    pub preview_type: PreviewType,
}

impl View for ProjectInfo {
    type V = ProjectInfoView;

    open spec fn view(&self) -> ProjectInfoView {
        ProjectInfoView {
            title: self.title@,
            description: self.description@,
            wallpaper_type: self.wallpaper_type@,
            tags: text_views(self.tags@),
            workshop_id: self.workshop_id@,
            preview_path: text_of(self.preview_path),
            preview_type: self.preview_type,
        }
    }
}

/// The fields of a manifest that a project is made from, each as the
/// manifest holds it: `None` where the field is absent or of another type.
#[derive(Debug, Clone)]
pub struct ManifestFields {
    pub title: Option<String>,
    pub description: Option<String>,
    pub wallpaper_type: Option<String>,
    /// The workshop identifier where the manifest gives it as a string.
    pub workshop_text: Option<String>,
    /// The workshop identifier where the manifest gives it as a number.
    pub workshop_number: Option<u64>,
    /// The elements of the tag list, `None` for an element that is no string.
    pub tags: Option<Vec<Option<String>>>,
}

/// The mathematical value of a `ManifestFields`.
pub struct ManifestFieldsView {
    pub title: Option<Seq<char>>,
    pub description: Option<Seq<char>>,
    pub wallpaper_type: Option<Seq<char>>,
    pub workshop_text: Option<Seq<char>>,
    pub workshop_number: Option<u64>,
    pub tags: Option<Seq<Option<Seq<char>>>>,
}

impl View for ManifestFields {
    type V = ManifestFieldsView;

    open spec fn view(&self) -> ManifestFieldsView {
        ManifestFieldsView {
            title: text_of(self.title),
            description: text_of(self.description),
            wallpaper_type: text_of(self.wallpaper_type),
            workshop_text: text_of(self.workshop_text),
            workshop_number: self.workshop_number,
            tags: match self.tags {
                Some(list) => Some(option_views(list@)),
                None => None,
            },
        }
    }
}

/// A text, or `default` in its place.
pub open spec fn text_or(text: Option<Seq<char>>, default: Seq<char>) -> Seq<char> {
    match text {
        Some(t) => t,
        None => default,
    }
}

/// The workshop identifier: the string if the manifest has one, else the
/// number written in decimal, else nothing.
pub open spec fn workshop_id_of(text: Option<Seq<char>>, number: Option<u64>) -> Seq<char> {
    match text {
        Some(t) => t,
        None => match number {
            Some(n) => decimal_text(n as nat),
            None => Seq::empty(),
        },
    }
}

/// The project that manifest fields and a preview make: a missing title is
/// `untitled`, a missing description empty, a missing kind `scene`, and the
/// tags are the strings of the tag list.
pub open spec fn project_of(
    fields: ManifestFieldsView,
    preview: (Option<Seq<char>>, PreviewType),
) -> ProjectInfoView {
    ProjectInfoView {
        title: text_or(fields.title, "untitled"@),
        description: text_or(fields.description, Seq::empty()),
        wallpaper_type: text_or(fields.wallpaper_type, "scene"@),
        tags: match fields.tags {
            Some(list) => present_texts(list),
            None => Seq::empty(),
        },
        workshop_id: workshop_id_of(fields.workshop_text, fields.workshop_number),
        preview_path: preview.0,
        preview_type: preview.1,
    }
}

fn text_or_default(text: &Option<String>, default: &str) -> (chosen: String)
    ensures
        chosen@ == text_or(text_of(*text), default@),
{
    match text {
        Some(t) => t.clone(),
        None => String::from_str(default),
    }
}

impl ProjectInfo {
    /// Makes a project from the fields of its manifest and its preview,
    /// filling in what the manifest leaves out.
    pub fn from_fields(fields: &ManifestFields, preview: (Option<String>, PreviewType)) -> (project:
        ProjectInfo)
        ensures
            project@ == project_of(fields@, (text_of(preview.0), preview.1)),
    {
        let title = text_or_default(&fields.title, "untitled");
        let description = match &fields.description {
            Some(t) => t.clone(),
            None => String::new(),
        };
        let wallpaper_type = text_or_default(&fields.wallpaper_type, "scene");
        let workshop_id = match &fields.workshop_text {
            Some(t) => t.clone(),
            None => match fields.workshop_number {
                Some(n) => decimal_string(n),
                None => String::new(),
            },
        };
        let tags = match &fields.tags {
            Some(list) => present_strings(list),
            None => {
                let none: Vec<String> = Vec::new();
                assert(text_views(none@) =~= Seq::<Seq<char>>::empty());
                none
            },
        };
        ProjectInfo {
            title,
            description,
            wallpaper_type,
            tags,
            workshop_id,
            preview_path: preview.0,
            preview_type: preview.1,
        }
    }
}

/// The text of the member under `key`, if the document is an object with a
/// string there.
pub open spec fn text_under(value: serde_json::Value, key: Seq<char>) -> Option<Seq<char>> {
    match json_member(value, key) {
        Some(m) => json_text(m),
        None => None,
    }
}

/// The number of the member under `key`, if the document is an object with
/// an integer in `u64` range there.
pub open spec fn number_under(value: serde_json::Value, key: Seq<char>) -> Option<u64> {
    match json_member(value, key) {
        Some(m) => json_number(m),
        None => None,
    }
}

/// The elements of the member under `key`, if the document is an object
/// with an array there: each element's text, `None` for one that is no
/// string.
pub open spec fn list_under(value: serde_json::Value, key: Seq<char>) -> Option<
    Seq<Option<Seq<char>>>,
> {
    match json_member(value, key) {
        Some(m) => match json_items(m) {
            Some(items) => Some(Seq::new(items.len(), |i: int| json_text(items[i]))),
            None => None,
        },
        None => None,
    }
}

/// The manifest fields that a parsed document holds: `title`, `description`,
/// `type`, `workshopid` and `tags`.
pub open spec fn fields_of(value: serde_json::Value) -> ManifestFieldsView {
    ManifestFieldsView {
        title: text_under(value, "title"@),
        description: text_under(value, "description"@),
        wallpaper_type: text_under(value, "type"@),
        workshop_text: text_under(value, "workshopid"@),
        workshop_number: number_under(value, "workshopid"@),
        tags: list_under(value, "tags"@),
    }
}

fn owned_text(text: Option<&str>) -> (owned: Option<String>)
    ensures
        owned.is_some() == text.is_some(),
        text matches Some(t) ==> text_of(owned) == Some(t@),
{
    match text {
        Some(t) => Some(String::from_str(t)),
        None => None,
    }
}

fn member_text(value: &serde_json::Value, key: &str) -> (text: Option<String>)
    ensures
        text_of(text) == text_under(*value, key@),
{
    match member(value, key) {
        Some(m) => owned_text(as_text(m)),
        None => None,
    }
}

fn member_list(value: &serde_json::Value, key: &str) -> (list: Option<Vec<Option<String>>>)
    ensures
        match list {
            Some(l) => list_under(*value, key@) == Some(option_views(l@)),
            None => list_under(*value, key@) is None,
        },
{
    let items = match member(value, key) {
        Some(m) => match as_items(m) {
            Some(items) => items,
            None => {
                return None;
            },
        },
        None => {
            return None;
        },
    };
    let mut list: Vec<Option<String>> = Vec::new();
    let mut i: usize = 0;
    while i < items.len()
        invariant
            i <= items.len(),
            list.len() == i,
            forall|k: int| 0 <= k < i ==> text_of(#[trigger] list[k]) == json_text(items[k]),
        decreases items.len() - i,
    {
        list.push(owned_text(as_text(&items[i])));
        i += 1;
    }
    assert(option_views(list@) =~= Seq::new(items@.len(), |i: int| json_text(items@[i])));
    Some(list)
}

/// Reads the fields of a manifest out of its parsed document.
pub fn manifest_fields(value: &serde_json::Value) -> (fields: ManifestFields)
    ensures
        fields@ == fields_of(*value),
{
    let workshop_number = match member(value, "workshopid") {
        Some(m) => as_number(m),
        None => None,
    };
    ManifestFields {
        title: member_text(value, "title"),
        description: member_text(value, "description"),
        wallpaper_type: member_text(value, "type"),
        workshop_text: member_text(value, "workshopid"),
        workshop_number,
        tags: member_list(value, "tags"),
    }
}

/// What reading the manifest file of a project gave.
#[derive(Debug, Clone)]
pub enum ManifestFile {
    /// The folder holds no manifest.
    Missing,
    /// The manifest could not be read, for the reason given.
    Unreadable(String),
    /// The text of the manifest.
    Text(String),
}

/// The mathematical value of a `ManifestFile`.
pub enum ManifestFileView {
    Missing,
    Unreadable(Seq<char>),
    Text(Seq<char>),
}

impl View for ManifestFile {
    type V = ManifestFileView;

    open spec fn view(&self) -> ManifestFileView {
        match self {
            ManifestFile::Missing => ManifestFileView::Missing,
            ManifestFile::Unreadable(reason) => ManifestFileView::Unreadable(reason@),
            ManifestFile::Text(text) => ManifestFileView::Text(text@),
        }
    }
}

/// What a project folder showed: its manifest, and for each name of
/// `preview_candidates` in order the path of that file if it exists.
#[derive(Debug, Clone)]
pub struct ProjectFolder {
    pub manifest: ManifestFile,
    pub previews: Vec<Option<String>>,
}

/// The mathematical value of a `ProjectFolder`.
pub struct ProjectFolderView {
    pub manifest: ManifestFileView,
    pub previews: Seq<Option<Seq<char>>>,
}

impl View for ProjectFolder {
    type V = ProjectFolderView;

    open spec fn view(&self) -> ProjectFolderView {
        ProjectFolderView { manifest: self.manifest@, previews: option_views(self.previews@) }
    }
}

/// The project read from a folder, or why there is none: the manifest is
/// missing, it cannot be read, or its text is no JSON document.
pub open spec fn manifest_outcome(folder: ProjectFolderView) -> Result<ProjectInfoView, Seq<char>> {
    match folder.manifest {
        ManifestFileView::Missing => Err("project.json 파일이 없습니다"@),
        ManifestFileView::Unreadable(reason) => Err("파일 읽기 실패: "@ + reason),
        ManifestFileView::Text(text) => match json_parsed(text) {
            Ok(value) => Ok(project_of(fields_of(value), preview_choice(folder.previews))),
            Err(error) => Err("JSON 파싱 실패: "@ + json_error_text(error)),
        },
    }
}

/// The value of the result of reading a project.
pub open spec fn outcome_view(outcome: Result<ProjectInfo, String>) -> Result<
    ProjectInfoView,
    Seq<char>,
> {
    match outcome {
        Ok(project) => Ok(project@),
        Err(message) => Err(message@),
    }
}

/// Reads the project of a folder from what the folder showed. Fails when the
/// manifest is missing or unreadable, or when its text does not parse as
/// JSON; a manifest that parses always gives a project, with defaults for
/// what it leaves out.
pub fn read_project_json(folder: &ProjectFolder) -> (outcome: Result<ProjectInfo, String>)
    ensures
        outcome_view(outcome) == manifest_outcome(folder@),
{
    match &folder.manifest {
        ManifestFile::Missing => Err(String::from_str("project.json 파일이 없습니다")),
        ManifestFile::Unreadable(reason) => Err(join_text("파일 읽기 실패: ", reason.as_str())),
        ManifestFile::Text(text) => match parse_json(text.as_str()) {
            Ok(value) => {
                let fields = manifest_fields(&value);
                let preview = find_preview_file(&folder.previews);
                Ok(ProjectInfo::from_fields(&fields, preview))
            },
            Err(error) => {
                let reason = error_text(&error);
                Err(join_text("JSON 파싱 실패: ", reason.as_str()))
            },
        },
    }
}

/// The project of a folder if reading it succeeds.
pub open spec fn project_if_read(folder: ProjectFolderView) -> Option<ProjectInfoView> {
    match manifest_outcome(folder) {
        Ok(project) => Some(project),
        Err(_) => None,
    }
}

/// The value of an optional project.
pub open spec fn optional_project_view(project: Option<ProjectInfo>) -> Option<ProjectInfoView> {
    match project {
        Some(p) => Some(p@),
        None => None,
    }
}

/// Reads the projects of many folders: one result for each folder, in the
/// order given, `None` where reading that folder fails.
pub fn read_projects_parallel(folders: Vec<ProjectFolder>) -> (projects: Vec<Option<ProjectInfo>>)
    ensures
        projects.len() == folders.len(),
        forall|i: int|
            0 <= i < folders.len() ==> optional_project_view(#[trigger] projects[i])
                == project_if_read(folders[i]@),
{
    let mut projects: Vec<Option<ProjectInfo>> = Vec::new();
    let mut i: usize = 0;
    while i < folders.len()
        invariant
            i <= folders.len(),
            projects.len() == i,
            forall|k: int|
                0 <= k < i ==> optional_project_view(#[trigger] projects[k]) == project_if_read(
                    folders[k]@,
                ),
        decreases folders.len() - i,
    {
        let project = match read_project_json(&folders[i]) {
            Ok(p) => Some(p),
            Err(_) => None,
        };
        projects.push(project);
        i += 1;
    }
    projects
}

/// The values of a sequence of labelled projects.
pub open spec fn labelled_views(items: Seq<(String, ProjectInfo)>) -> Seq<
    (Seq<char>, ProjectInfoView),
> {
    Seq::new(items.len(), |i: int| (items[i].0@, items[i].1@))
}

/// Whether a project is of the wanted kind, going by the name of its kind
/// in any case.
pub open spec fn is_of_type(project: ProjectInfoView, wanted: WallpaperType) -> bool {
    wallpaper_type_of(lowercase_text(project.wallpaper_type)) == wanted
}

/// Those of the first `n` items whose project is of the wanted kind, in
/// order.
pub open spec fn of_type_upto(
    items: Seq<(Seq<char>, ProjectInfoView)>,
    n: int,
    wanted: WallpaperType,
) -> Seq<(Seq<char>, ProjectInfoView)>
    decreases n,
{
    if n <= 0 {
        Seq::empty()
    } else if is_of_type(items[n - 1].1, wanted) {
        of_type_upto(items, n - 1, wanted).push(items[n - 1])
    } else {
        of_type_upto(items, n - 1, wanted)
    }
}

/// Keeps the projects of one kind, in the order given.
pub fn filter_by_type(items: Vec<(String, ProjectInfo)>, wallpaper_type: WallpaperType) -> (kept:
    Vec<(String, ProjectInfo)>)
    ensures
        labelled_views(kept@) == of_type_upto(
            labelled_views(items@),
            items.len() as int,
            wallpaper_type,
        ),
{
    let ghost all = labelled_views(items@);
    let mut kept: Vec<(String, ProjectInfo)> = Vec::new();
    for item in it: items
        invariant
            it.seq() == items@,
            all == labelled_views(items@),
            labelled_views(kept@) == of_type_upto(all, it.index() as int, wallpaper_type),
    {
        let ghost before = labelled_views(kept@);
        if WallpaperType::from_str(item.1.wallpaper_type.as_str()) == wallpaper_type {
            kept.push(item);
            assert(labelled_views(kept@) =~= before.push(all[it.index() as int]));
        }
    }
    kept
}

} // verus!
