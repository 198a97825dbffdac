use workshop_cleaner::steam::{
    default_install_paths, extract_quoted_value, find_additional_libraries, find_steam_path,
    find_steam_path_fallback, get_workshop_url, library_folders, registry_keys, unescape,
    workshop_folders, RegistryProbe,
};
use workshop_cleaner::text::{find_mark, same_text, text_contains, text_lines};

#[test]
fn test_find_steam() {
    match find_steam_path(&Vec::new(), &vec![None; 6]) {
        Ok(info) => {
            println!("✅ Steam found!");
            println!("Install: {}", info.install_path);
            println!("Workshop: {}", info.workshop_path);
        }
        Err(e) => {
            println!("❌ Steam not found: {}", e);
        }
    }
}

#[test]
fn test_workshop_url() {
    let url = get_workshop_url("123456789");
    assert_eq!(
        url,
        "https://steamcommunity.com/sharedfiles/filedetails/?id=123456789"
    );
}

#[test]
fn test_extract_quoted() {
    let line = r#"        "path"      "D:\\SteamLibrary""#;
    let value = extract_quoted_value(line);
    assert_eq!(value, Some("D:\\SteamLibrary".to_string()));
}

#[test]
fn workshop_url_of_any_identifier() {
    assert_eq!(
        get_workshop_url(""),
        "https://steamcommunity.com/sharedfiles/filedetails/?id="
    );
    assert_eq!(
        get_workshop_url("a b"),
        "https://steamcommunity.com/sharedfiles/filedetails/?id=a b"
    );
}

#[test]
fn quoted_value_is_the_second_quoted_text() {
    assert_eq!(extract_quoted_value(r#""key" "value""#), Some("value".to_string()));
    assert_eq!(extract_quoted_value(r#""key" "value" "more""#), Some("value".to_string()));
    assert_eq!(extract_quoted_value(r#""key" """#), Some(String::new()));
    assert_eq!(extract_quoted_value(r#""key" "open"#), Some("open".to_string()));
    assert_eq!(extract_quoted_value(r#""key" ""#), Some(String::new()));
    assert_eq!(extract_quoted_value(r#""key" value"#), None);
    assert_eq!(extract_quoted_value(r#""key"#), None);
    assert_eq!(extract_quoted_value("no quotes"), None);
    assert_eq!(extract_quoted_value(""), None);
}

#[test]
fn doubled_backslashes_are_read_as_one() {
    assert_eq!(unescape(r"D:\\Games\\Steam"), r"D:\Games\Steam");
    assert_eq!(unescape(r"\\\\server\\share"), r"\\server\share");
    assert_eq!(unescape(r"a\b"), r"a\b");
    assert_eq!(unescape(r"a\\\b"), r"a\\b");
    assert_eq!(unescape(r"\"), r"\");
    assert_eq!(unescape(""), "");
    assert_eq!(unescape("plain / path"), "plain / path");
    assert_eq!(
        extract_quoted_value(r#""path" "E:\\Steam Library\\x""#),
        Some(r"E:\Steam Library\x".to_string())
    );
}

#[test]
fn fallback_takes_the_first_usual_path_that_has_a_workshop() {
    let paths = default_install_paths();
    assert_eq!(
        paths,
        vec![
            r"C:\Program Files (x86)\Steam",
            r"C:\Program Files\Steam",
            r"D:\Steam",
            r"E:\Steam",
            r"F:\SteamLibrary",
            r"G:\SteamLibrary",
        ]
    );
    let workshop = |base: &str| Some(format!(r"{}\steamapps\workshop\content\431960", base));
    let info = find_steam_path_fallback(&vec![
        None,
        None,
        workshop(&paths[2]),
        None,
        workshop(&paths[4]),
        None,
    ])
    .unwrap();
    assert_eq!(info.install_path, r"D:\Steam");
    assert_eq!(info.workshop_path, r"D:\Steam\steamapps\workshop\content\431960");
    assert!(info.found);
    let last = find_steam_path_fallback(&vec![None, None, None, None, None, workshop(&paths[5])])
        .unwrap();
    assert_eq!(info.found, last.found);
    assert_eq!(last.install_path, r"G:\SteamLibrary");
    let first = find_steam_path_fallback(&vec![workshop(&paths[0])]).unwrap();
    assert_eq!(first.install_path, r"C:\Program Files (x86)\Steam");
}

#[test]
fn fallback_fails_when_no_usual_path_has_a_workshop() {
    let message = "Steam Wallpaper Engine 워크샵 경로를 찾을 수 없습니다.";
    assert_eq!(find_steam_path_fallback(&vec![None; 6]).unwrap_err(), message);
    assert_eq!(find_steam_path_fallback(&Vec::new()).unwrap_err(), message);
    let beyond = vec![None, None, None, None, None, None, Some("/seventh".to_string())];
    assert_eq!(find_steam_path_fallback(&beyond).unwrap_err(), message);
    assert_eq!(find_steam_path(&Vec::new(), &vec![None; 6]).unwrap_err(), message);
}

#[test]
fn registry_wins_over_the_usual_paths() {
    let registry = vec![
        RegistryProbe { install_path: r"X:\Old".to_string(), workshop_path: None },
        RegistryProbe {
            install_path: r"Y:\Steam".to_string(),
            workshop_path: Some(r"Y:\Steam\steamapps\workshop\content\431960".to_string()),
        },
    ];
    let usual = vec![Some(r"C:\w".to_string()), None, None, None, None, None];
    let info = find_steam_path(&registry, &usual).unwrap();
    assert_eq!(info.install_path, r"Y:\Steam");
    assert_eq!(info.workshop_path, r"Y:\Steam\steamapps\workshop\content\431960");
    assert!(info.found);

    let stale = vec![RegistryProbe { install_path: r"X:\Old".to_string(), workshop_path: None }];
    let info = find_steam_path(&stale, &usual).unwrap();
    assert_eq!(info.install_path, r"C:\Program Files (x86)\Steam");
    assert_eq!(info.workshop_path, r"C:\w");
}

#[test]
fn keys_and_folders_are_as_steam_lays_them_out() {
    assert_eq!(
        registry_keys(),
        vec![r"SOFTWARE\WOW6432Node\Valve\Steam", r"SOFTWARE\Valve\Steam"]
    );
    assert_eq!(workshop_folders(), vec!["steamapps", "workshop", "content", "431960"]);
}

#[test]
fn library_folders_are_read_from_the_list() {
    let content = [
        "\"libraryfolders\"",
        "{",
        "\t\"0\"",
        "\t{",
        "\t\t\"path\"\t\t\"C:\\\\Program Files (x86)\\\\Steam\"",
        "\t\t\"label\"\t\t\"\"",
        "\t}",
        "\t\"1\"",
        "\t{",
        "\t\t\"path\"\t\t\"D:\\\\SteamLibrary\"",
        "\t}",
        "}",
        "",
    ]
    .join("\r\n");
    assert_eq!(
        library_folders(&content),
        vec![r"C:\Program Files (x86)\Steam", r"D:\SteamLibrary"]
    );
    assert!(library_folders("").is_empty());
    assert_eq!(library_folders("\"label\" \"path\""), vec!["path"]);
    assert!(library_folders("\"label\" \"paths\"").is_empty());
    assert_eq!(library_folders("\"path\" \"a\"\n\"path\" \"b\""), vec!["a", "b"]);
    assert!(library_folders("\"path\" unquoted").is_empty());
    assert_eq!(library_folders("\"x\" \"\"path\"\""), vec![""]);
}

#[test]
fn further_libraries_are_those_whose_workshop_exists() {
    let found = vec![None, Some("/l1/w".to_string()), None, Some("/l2/w".to_string())];
    assert_eq!(find_additional_libraries(&found), vec!["/l1/w", "/l2/w"]);
    assert!(find_additional_libraries(&Vec::new()).is_empty());
    assert!(find_additional_libraries(&vec![None, None]).is_empty());
}

#[test]
fn lines_end_at_line_feeds() {
    assert_eq!(text_lines("a\nb\r\nc"), vec!["a", "b", "c"]);
    assert_eq!(text_lines("a\n"), vec!["a"]);
    assert_eq!(text_lines("a\n\nb"), vec!["a", "", "b"]);
    assert_eq!(text_lines("\n"), vec![""]);
    assert_eq!(text_lines("\r\n"), vec![""]);
    assert_eq!(text_lines("a\r"), vec!["a\r"]);
    assert_eq!(text_lines("a\rb\n"), vec!["a\rb"]);
    assert_eq!(text_lines("한\n글"), vec!["한", "글"]);
    assert!(text_lines("").is_empty());
    let sample = "one\r\ntwo\n\nthree\r";
    let expected: Vec<&str> = sample.lines().collect();
    assert_eq!(text_lines(sample), expected);
}

#[test]
fn text_search_finds_what_is_there() {
    assert!(text_contains("  \"path\"  \"x\"", "\"path\""));
    assert!(!text_contains("  \"pat\"  \"x\"", "\"path\""));
    assert!(text_contains("abc", ""));
    assert!(text_contains("", ""));
    assert!(!text_contains("", "a"));
    assert!(text_contains("aab", "ab"));
    assert!(text_contains("abc", "abc"));
    assert!(!text_contains("abc", "abcd"));
    assert!(text_contains("가나다", "나다"));
}

#[test]
fn text_helpers_agree_with_the_texts() {
    assert!(same_text("scene", "scene"));
    assert!(!same_text("scene", "scenes"));
    assert!(!same_text("scene", "scenE"));
    assert!(same_text("", ""));
    let chars: Vec<char> = "a\"b\"".chars().collect();
    assert_eq!(find_mark(&chars, '"', 0), 1);
    assert_eq!(find_mark(&chars, '"', 2), 3);
    assert_eq!(find_mark(&chars, '"', 4), 4);
    assert_eq!(find_mark(&chars, '"', 9), 4);
    assert_eq!(find_mark(&chars, 'z', 0), 4);
}
