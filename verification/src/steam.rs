//! Locating the Steam installation and, in it, the workshop folder of
//! Wallpaper Engine.

use vstd::prelude::*;
use crate::probe::{
    first_found, first_present, lemma_first_present, option_views, present_strings,
    present_texts,
};
use crate::text::{
    chars_of, contains_text, find_mark, join_text, lines_of, next_mark, text_contains, text_lines,
    text_of, text_views,
};

verus! {

/// Where Steam is installed and where the workshop content lies.
#[derive(Debug, Clone)]
pub struct SteamInfo {
    pub install_path: String,
    pub workshop_path: String,
    pub found: bool,
}

/// The mathematical value of a `SteamInfo`.
pub struct SteamInfoView {
    pub install_path: Seq<char>,
    pub workshop_path: Seq<char>,
    pub found: bool,
}

impl View for SteamInfo {
    type V = SteamInfoView;

    open spec fn view(&self) -> SteamInfoView {
        SteamInfoView {
            install_path: self.install_path@,
            workshop_path: self.workshop_path@,
            found: self.found,
        }
    }
}

/// The value of the result of a search for Steam.
pub open spec fn search_view(outcome: Result<SteamInfo, String>) -> Result<
    SteamInfoView,
    Seq<char>,
> {
    match outcome {
        Ok(info) => Ok(info@),
        Err(message) => Err(message@),
    }
}

/// The registry keys under which Steam records its installation, in the
/// order in which they are asked.
pub open spec fn registry_key_names() -> Seq<Seq<char>> {
    seq!["SOFTWARE\\WOW6432Node\\Valve\\Steam"@, "SOFTWARE\\Valve\\Steam"@]
}

/// The registry keys to ask for the installation path, in order. The path
/// is the value `InstallPath` of the key.
pub fn registry_keys() -> (keys: Vec<String>)
    ensures
        text_views(keys@) == registry_key_names(),
{
    let mut keys: Vec<String> = Vec::new();
    keys.push(String::from_str("SOFTWARE\\WOW6432Node\\Valve\\Steam"));
    keys.push(String::from_str("SOFTWARE\\Valve\\Steam"));
    assert(text_views(keys@) =~= registry_key_names());
    keys
}

/// The folders below an installation that lead to the workshop content of
/// Wallpaper Engine, whose application number is 431960.
pub open spec fn workshop_folder_names() -> Seq<Seq<char>> {
    seq!["steamapps"@, "workshop"@, "content"@, "431960"@]
}

/// The names of the folders that lead from an installation to the workshop
/// content, outermost first.
pub fn workshop_folders() -> (names: Vec<String>)
    ensures
        text_views(names@) == workshop_folder_names(),
{
    let mut names: Vec<String> = Vec::new();
    names.push(String::from_str("steamapps"));
    names.push(String::from_str("workshop"));
    names.push(String::from_str("content"));
    names.push(String::from_str("431960"));
    assert(text_views(names@) =~= workshop_folder_names());
    names
}

/// The places where Steam is usually installed, in the order in which they
/// are tried.
pub open spec fn default_path_names() -> Seq<Seq<char>> {
    seq![
        "C:\\Program Files (x86)\\Steam"@,
        "C:\\Program Files\\Steam"@,
        "D:\\Steam"@,
        "E:\\Steam"@,
        "F:\\SteamLibrary"@,
        "G:\\SteamLibrary"@,
    ]
}

/// The usual installation paths, in the order in which they are tried.
pub fn default_install_paths() -> (paths: Vec<String>)
    ensures
        text_views(paths@) == default_path_names(),
{
    let mut paths: Vec<String> = Vec::new();
    paths.push(String::from_str("C:\\Program Files (x86)\\Steam"));
    paths.push(String::from_str("C:\\Program Files\\Steam"));
    paths.push(String::from_str("D:\\Steam"));
    paths.push(String::from_str("E:\\Steam"));
    paths.push(String::from_str("F:\\SteamLibrary"));
    paths.push(String::from_str("G:\\SteamLibrary"));
    assert(text_views(paths@) =~= default_path_names());
    paths
}

/// The message of a search that found no workshop folder.
pub open spec fn not_found_text() -> Seq<char> {
    "Steam Wallpaper Engine 워크샵 경로를 찾을 수 없습니다."@
}

/// The outcome of trying the usual installation paths: the first whose
/// workshop folder exists, or a failure. `found` holds one probe for each
/// path of `default_path_names`: the path of its workshop folder if that
/// folder exists.
pub open spec fn fallback_outcome(found: Seq<Option<Seq<char>>>) -> Result<
    SteamInfoView,
    Seq<char>,
> {
    match first_present(found, 6) {
        Some(place) => Ok(
            SteamInfoView {
                install_path: default_path_names()[place],
                workshop_path: found[place]->0,
                found: true,
            },
        ),
        None => Err(not_found_text()),
    }
}

fn not_found_message() -> (message: String)
    ensures
        message@ == not_found_text(),
{
    String::from_str("Steam Wallpaper Engine 워크샵 경로를 찾을 수 없습니다.")
}

/// Looks for the workshop folder under the usual installation paths.
/// `found` holds, for each path of `default_install_paths` in order, the
/// path of its workshop folder if that folder exists. The first that exists
/// wins; the search fails if none does.
pub fn find_steam_path_fallback(found: &Vec<Option<String>>) -> (outcome: Result<SteamInfo, String>)
    ensures
        search_view(outcome) == fallback_outcome(option_views(found@)),
{
    match first_found(found, 6) {
        Some(place) => {
            proof {
                lemma_first_present(option_views(found@), 6, 0);
            }
            let paths = default_install_paths();
            assert(text_views(paths@).len() == 6);
            assert(text_views(paths@)[place as int] == paths[place as int]@);
            match &found[place] {
                Some(workshop) => Ok(
                    SteamInfo {
                        install_path: paths[place].clone(),
                        workshop_path: workshop.clone(),
                        found: true,
                    },
                ),
                None => Err(not_found_message()),
            }
        },
        None => Err(not_found_message()),
    }
}

/// An installation path that the registry gave, with the path of its
/// workshop folder if that folder exists.
#[derive(Debug, Clone)]
pub struct RegistryProbe {
    pub install_path: String,
    pub workshop_path: Option<String>,
}

/// The mathematical value of a `RegistryProbe`.
pub struct RegistryProbeView {
    pub install_path: Seq<char>,
    pub workshop_path: Option<Seq<char>>,
}

impl View for RegistryProbe {
    type V = RegistryProbeView;

    open spec fn view(&self) -> RegistryProbeView {
        RegistryProbeView {
            install_path: self.install_path@,
            workshop_path: text_of(self.workshop_path),
        }
    }
}

/// The values of a sequence of registry probes.
pub open spec fn probe_views(probes: Seq<RegistryProbe>) -> Seq<RegistryProbeView> {
    Seq::new(probes.len(), |i: int| probes[i]@)
}

/// The first probe from `from` on whose workshop folder exists.
pub open spec fn first_installed_from(probes: Seq<RegistryProbeView>, from: int) -> Option<int>
    decreases probes.len() - from,
{
    if from < 0 || from >= probes.len() {
        None
    } else if probes[from].workshop_path is Some {
        Some(from)
    } else {
        first_installed_from(probes, from + 1)
    }
}

/// The outcome of a search: the first installation from the registry whose
/// workshop folder exists, else what the usual paths give.
pub open spec fn search_outcome(
    registry: Seq<RegistryProbeView>,
    found: Seq<Option<Seq<char>>>,
) -> Result<SteamInfoView, Seq<char>> {
    match first_installed_from(registry, 0) {
        Some(place) => Ok(
            SteamInfoView {
                install_path: registry[place].install_path,
                workshop_path: registry[place].workshop_path->0,
                found: true,
            },
        ),
        None => fallback_outcome(found),
    }
}

/// Looks for the workshop folder. `registry` holds the installation paths
/// that the keys of `registry_keys` gave, in key order; it is empty where
/// there is no registry. `found` holds the probes of the usual paths, as for
/// `find_steam_path_fallback`. An installation from the registry whose
/// workshop folder exists wins over the usual paths.
pub fn find_steam_path(registry: &Vec<RegistryProbe>, found: &Vec<Option<String>>) -> (outcome:
    Result<SteamInfo, String>)
    ensures
        search_view(outcome) == search_outcome(probe_views(registry@), option_views(found@)),
{
    let ghost probes = probe_views(registry@);
    let mut i: usize = 0;
    while i < registry.len()
        invariant
            i <= registry.len(),
            probes == probe_views(registry@),
            first_installed_from(probes, 0) == first_installed_from(probes, i as int),
        decreases registry.len() - i,
    {
        match &registry[i].workshop_path {
            Some(workshop) => {
                return Ok(
                    SteamInfo {
                        install_path: registry[i].install_path.clone(),
                        workshop_path: workshop.clone(),
                        found: true,
                    },
                );
            },
            None => {},
        }
        i += 1;
    }
    find_steam_path_fallback(found)
}

/// The address of the workshop page of an item.
pub open spec fn workshop_url_text(workshop_id: Seq<char>) -> Seq<char> {
    "https://steamcommunity.com/sharedfiles/filedetails/?id="@ + workshop_id
}

/// The address of the Steam workshop page of the item with the given
/// identifier.
pub fn get_workshop_url(workshop_id: &str) -> (url: String)
    ensures
        url@ == workshop_url_text(workshop_id@),
{
    join_text("https://steamcommunity.com/sharedfiles/filedetails/?id=", workshop_id)
}

/// A text with each doubled backslash read as one backslash, from left to
/// right.
pub open spec fn unescaped(text: Seq<char>) -> Seq<char>
    decreases text.len(),
{
    if text.len() == 0 {
        Seq::empty()
    } else if text.len() >= 2 && text[0] == '\\' && text[1] == '\\' {
        seq!['\\'] + unescaped(text.subrange(2, text.len() as int))
    } else {
        seq![text[0]] + unescaped(text.subrange(1, text.len() as int))
    }
}

/// Reads each doubled backslash of a text as one backslash.
pub fn unescape(text: &str) -> (plain: String)
    ensures
        plain@ == unescaped(text@),
{
    let chars = chars_of(text);
    let mut plain = String::new();
    let mut i: usize = 0;
    assert(text@.subrange(0, text@.len() as int) =~= text@);
    while i < chars.len()
        invariant
            i <= chars.len(),
            chars@ == text@,
            plain@ + unescaped(text@.subrange(i as int, text@.len() as int)) == unescaped(text@),
        decreases chars.len() - i,
    {
        let ghost rest = text@.subrange(i as int, text@.len() as int);
        let ghost before = plain@;
        let doubled = chars[i] == '\\' && i + 1 < chars.len() && chars[i + 1] == '\\';
        plain.append(text.substring_char(i, i + 1));
        let step: usize = if doubled {
            2
        } else {
            1
        };
        proof {
            assert(rest[0] == chars[i as int]);
            assert(text@.subrange(i as int, i + 1) =~= seq![chars[i as int]]);
            if doubled {
                assert(rest[1] == chars[i + 1]);
            }
            let after = text@.subrange(i + step, text@.len() as int);
            assert(rest.subrange(step as int, rest.len() as int) =~= after);
            assert(unescaped(rest) == seq![chars[i as int]] + unescaped(after));
            assert(before + (seq![chars[i as int]] + unescaped(after)) =~= (before + seq![
                chars[i as int],
            ]) + unescaped(after));
        }
        i += step;
    }
    proof {
        assert(plain@ + Seq::<char>::empty() =~= plain@);
    }
    plain
}

/// The value of a line of the library list: the text between the third
/// double quote of the line and the fourth, or the end of the line where
/// there is no fourth, with doubled backslashes read as single ones. `None`
/// where the line has fewer than three double quotes.
pub open spec fn quoted_value(line: Seq<char>) -> Option<Seq<char>> {
    let first = next_mark(line, '"', 0);
    let second = next_mark(line, '"', first + 1);
    let third = next_mark(line, '"', second + 1);
    let fourth = next_mark(line, '"', third + 1);
    if third >= line.len() {
        None
    } else {
        Some(unescaped(line.subrange(third + 1, fourth)))
    }
}

/// Reads the value out of a line of the form `"key" "value"`.
pub fn extract_quoted_value(line: &str) -> (value: Option<String>)
    ensures
        text_of(value) == quoted_value(line@),
{
    let chars = chars_of(line);
    let first: usize = find_mark(&chars, '"', 0);
    if first >= chars.len() {
        return None;
    }
    let second: usize = find_mark(&chars, '"', first + 1);
    if second >= chars.len() {
        return None;
    }
    let third: usize = find_mark(&chars, '"', second + 1);
    if third >= chars.len() {
        return None;
    }
    let fourth: usize = find_mark(&chars, '"', third + 1);
    Some(unescape(line.substring_char(third + 1, fourth)))
}

/// The key that marks a line of the library list as naming a folder.
pub open spec fn path_key() -> Seq<char> {
    "\"path\""@
}

/// The folders named among `lines`: the value of each line that holds the
/// key `"path"` and has a value, in order.
pub open spec fn folders_in(lines: Seq<Seq<char>>) -> Seq<Seq<char>>
    decreases lines.len(),
{
    if lines.len() == 0 {
        Seq::empty()
    } else if contains_text(lines.last(), path_key()) && quoted_value(lines.last()) is Some {
        folders_in(lines.drop_last()).push(quoted_value(lines.last())->0)
    } else {
        folders_in(lines.drop_last())
    }
}

/// Reads the library folders out of the text of Steam's list of libraries.
pub fn library_folders(content: &str) -> (folders: Vec<String>)
    ensures
        text_views(folders@) == folders_in(lines_of(content@)),
{
    let lines = text_lines(content);
    let ghost all = text_views(lines@);
    let mut folders: Vec<String> = Vec::new();
    let mut i: usize = 0;
    while i < lines.len()
        invariant
            i <= lines.len(),
            all == text_views(lines@),
            text_views(folders@) == folders_in(all.take(i as int)),
        decreases lines.len() - i,
    {
        let ghost before = text_views(folders@);
        proof {
            assert(all.take(i + 1).drop_last() =~= all.take(i as int));
            assert(all.take(i + 1).last() == lines[i as int]@);
        }
        if text_contains(lines[i].as_str(), "\"path\"") {
            match extract_quoted_value(lines[i].as_str()) {
                Some(folder) => {
                    folders.push(folder);
                    assert(text_views(folders@) =~= before.push(quoted_value(lines[i as int]@)->0));
                },
                None => {},
            }
        }
        i += 1;
    }
    proof {
        assert(all.take(i as int) =~= all);
    }
    folders
}

/// The workshop folders of the further libraries. `found` holds, for each
/// folder that `library_folders` read, the path of its workshop folder if
/// that folder exists; it is empty where there is no list of libraries.
/// Those that exist are returned, in order.
pub fn find_additional_libraries(found: &Vec<Option<String>>) -> (libraries: Vec<String>)
    ensures
        text_views(libraries@) == present_texts(option_views(found@)),
{
    present_strings(found)
}

} // verus!
