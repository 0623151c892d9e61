use prek::path::normalize_path;
use prek::path::relative_to;
use prek::path::simplified::{shown, simplify};
use prek::path::{IntoUtf8PathBuf, PathBuf, PathClean, Simplified, ToUtf8Path, Utf8PathBuf, clean};
use prek::platform::Platform;

fn cleaned(text: &str) -> PathBuf {
    clean(&PathBuf::unix(text))
}

fn text_of(path: &PathBuf) -> String {
    path.to_string_lossy()
}

fn utf8(platform: Platform, text: &str) -> Utf8PathBuf {
    Utf8PathBuf { platform, text: text.to_string() }
}

#[test]
fn test_empty_path_is_current_dir() {
    assert_eq!(cleaned(""), PathBuf::unix("."));
}

#[test]
fn test_clean_paths_dont_change() {
    let tests = vec![(".", "."), ("..", ".."), ("/", "/")];

    for test in tests {
        assert_eq!(cleaned(test.0), PathBuf::unix(test.1));
    }
}

#[test]
fn test_replace_multiple_slashes() {
    let tests = vec![
        ("/", "/"),
        ("//", "/"),
        ("///", "/"),
        (".//", "."),
        ("//..", "/"),
        ("..//", ".."),
        ("/..//", "/"),
        ("/.//./", "/"),
        ("././/./", "."),
        ("path//to///thing", "path/to/thing"),
        ("/path//to///thing", "/path/to/thing"),
    ];

    for test in tests {
        assert_eq!(cleaned(test.0), PathBuf::unix(test.1));
    }
}

#[test]
fn test_eliminate_current_dir() {
    let tests = vec![
        ("./", "."),
        ("/./", "/"),
        ("./test", "test"),
        ("./test/./path", "test/path"),
        ("/test/./path/", "/test/path"),
        ("test/path/.", "test/path"),
    ];

    for test in tests {
        assert_eq!(cleaned(test.0), PathBuf::unix(test.1));
    }
}

#[test]
fn test_eliminate_parent_dir() {
    let tests = vec![
        ("/..", "/"),
        ("/../test", "/test"),
        ("test/..", "."),
        ("test/path/..", "test"),
        ("test/../path", "path"),
        ("/test/../path", "/path"),
        ("test/path/../../", "."),
        ("test/path/../../..", ".."),
        ("/test/path/../../..", "/"),
        ("/test/path/../../../..", "/"),
        ("test/path/../../../..", "../.."),
        ("test/path/../../another/path", "another/path"),
        ("test/path/../../another/path/..", "another"),
        ("../test", "../test"),
        ("../test/", "../test"),
        ("../test/path", "../test/path"),
        ("../test/..", ".."),
    ];

    for test in tests {
        assert_eq!(cleaned(test.0), PathBuf::unix(test.1));
    }
}

#[test]
fn test_pathbuf_trait() {
    assert_eq!(PathBuf::unix("/test/../path/").clean(), PathBuf::unix("/path"));
}

#[test]
fn test_path_trait() {
    let path = utf8(Platform::Unix, "/test/../path/");
    assert_eq!(path.clean(), PathBuf::unix("/path"));
}

#[test]
fn test_windows_paths() {
    let tests = vec![
        ("\\..", "\\"),
        ("\\..\\test", "\\test"),
        ("test\\..", "."),
        ("test\\path\\..\\..\\..", ".."),
        ("test\\path/..\\../another\\path", "another\\path"), // Mixed
        ("test\\path\\my/path", "test\\path\\my\\path"),      // Mixed 2
        ("/dir\\../otherDir/test.json", "/otherDir/test.json"),
        ("c:\\test\\..", "c:\\"),
        ("c:/test/..", "c:/"),
    ];

    for test in tests {
        assert_eq!(clean(&PathBuf::windows(test.0)), PathBuf::windows(test.1));
    }
}

#[test]
fn cleaned_text_is_exact() {
    assert_eq!(text_of(&cleaned("")), ".");
    assert_eq!(text_of(&cleaned("/a//b/./c/../d/")), "/a/b/d");
    assert_eq!(text_of(&cleaned("a/../../b")), "../b");
    assert_eq!(text_of(&cleaned("./.hidden/...")), ".hidden/...");
    assert_eq!(text_of(&clean(&PathBuf::windows("test\\path\\my/path"))), "test\\path\\my\\path");
    assert_eq!(text_of(&clean(&PathBuf::windows("c:/test/.."))), "c:\\");
    assert_eq!(
        text_of(&clean(&PathBuf::windows("\\\\server\\share\\a\\..\\b"))),
        "\\\\server\\share\\b"
    );
}

#[test]
fn cleaning_twice_is_cleaning_once() {
    for text in ["", "/", "//a/../b", "../../x/..", "./a/./b//c", "/../..", "a/b/../../.."] {
        let once = cleaned(text);
        assert_eq!(text_of(&clean(&once)), text_of(&once));
    }
}

#[test]
fn cleaning_acts_on_joined_paths() {
    for text in ["", "/", ".", "..", "a/..", "/a/./b", "../a//b/", "/.."] {
        let path = PathBuf::unix(text);
        let once = text_of(&clean(&path));
        let named = if once == "." { PathBuf::unix("x") } else { clean(&path).join("x") };
        assert_eq!(text_of(&clean(&path.join("x"))), text_of(&named));
        assert_eq!(text_of(&clean(&path.join("x").join(".."))), once);
        assert_eq!(text_of(&clean(&path.join("."))), once);
    }
}

#[test]
fn a_cleaned_path_keeps_its_root() {
    for text in ["/", "/..", "//a", "/a/../.."] {
        assert!(text_of(&cleaned(text)).starts_with('/'));
    }
    for text in ["", "..", "a", "a/../.."] {
        assert!(!text_of(&cleaned(text)).starts_with('/'));
    }
}

#[test]
fn paths_are_equal_by_components() {
    assert_eq!(PathBuf::unix("a//b/"), PathBuf::unix("a/b"));
    assert_eq!(PathBuf::unix("a/./b"), PathBuf::unix("a/b"));
    assert_ne!(PathBuf::unix("./a"), PathBuf::unix("a"));
    assert_ne!(PathBuf::unix("a\\b"), PathBuf::unix("a/b"));
    assert_eq!(PathBuf::windows("a\\b"), PathBuf::windows("a/b"));
    assert_eq!(PathBuf::windows("C:\\x"), PathBuf::windows("c:/x"));
    assert_ne!(PathBuf::windows("c:x"), PathBuf::windows("c:\\x"));
    assert_ne!(PathBuf::windows("a"), PathBuf::unix("a"));
}

#[test]
fn joining_parents_and_names() {
    let path = PathBuf::unix("/a/b").join("c.txt");
    assert_eq!(text_of(&path), "/a/b/c.txt");
    assert_eq!(text_of(&path.parent().unwrap()), "/a/b");
    assert_eq!(path.file_name().unwrap(), b"c.txt".to_vec());
    assert_eq!(text_of(&PathBuf::unix("/a").join("/b")), "/b");
    assert_eq!(text_of(&PathBuf::unix("a/").join("b")), "a/b");
    assert!(PathBuf::unix("/").parent().is_none());
    assert_eq!(text_of(&PathBuf::unix("a").parent().unwrap()), "");
    assert!(PathBuf::unix("").parent().is_none());
    assert!(PathBuf::unix("a/..").file_name().is_none());
    assert_eq!(text_of(&PathBuf::windows("c:\\a").join("\\b")), "c:\\b");
    assert_eq!(text_of(&PathBuf::windows("c:").join("b")), "c:b");
    assert_eq!(text_of(&PathBuf::windows("a").join("d:\\b")), "d:\\b");
    assert_eq!(text_of(&PathBuf::windows("\\\\?\\c:\\a").join("..\\b")), "\\\\?\\c:\\b");
    assert_eq!(text_of(&PathBuf::unix("/bin").program("deno")), "/bin/deno");
    assert_eq!(text_of(&PathBuf::windows("bin").program("deno")), "bin\\deno.exe");
}

#[test]
fn prefixes_are_stripped_by_components() {
    let path = PathBuf::unix("/a//b/c");
    assert_eq!(text_of(&path.strip_prefix(&PathBuf::unix("/a")).unwrap()), "b/c");
    assert_eq!(text_of(&path.strip_prefix(&PathBuf::unix("/a/b/c")).unwrap()), "");
    assert!(path.strip_prefix(&PathBuf::unix("/ab")).is_none());
    assert!(path.starts_with(&PathBuf::unix("/a/b")));
    assert!(!path.starts_with(&PathBuf::unix("a")));
}

#[test]
fn relative_paths_of_the_documentation() {
    let base = PathBuf::unix("lib/python/site-packages");
    let tests = vec![
        ("lib/python/site-packages/foo/__init__.py", "foo/__init__.py"),
        ("lib/marker.txt", "../../marker.txt"),
        ("bin/foo_launcher", "../../../bin/foo_launcher"),
    ];
    for (path, want) in tests {
        assert_eq!(relative_to(&PathBuf::unix(path), &base).unwrap().text, want);
    }
}

#[test]
fn there_is_no_relative_path_from_the_root_to_elsewhere() {
    let error = relative_to(&PathBuf::unix("a"), &PathBuf::unix("/b")).unwrap_err();
    assert_eq!(error.message, "Trivial strip failed: a vs. /b");
    let error = relative_to(&PathBuf::windows("d:\\a"), &PathBuf::windows("c:\\b")).unwrap_err();
    assert_eq!(error.message, "Trivial strip failed: d:\\a vs. c:\\b");
    let error = relative_to(&PathBuf::unix("/lib/marker.txt"), &PathBuf::unix("bin")).unwrap_err();
    assert_eq!(error.message, "Trivial strip failed: /lib/marker.txt vs. bin");
    assert!(relative_to(&PathBuf::windows("c:\\a"), &PathBuf::windows("b")).is_err());
    assert!(relative_to(&PathBuf::windows("c:\\a"), &PathBuf::windows("c:b")).is_err());
}

#[test]
fn a_relative_path_leads_back() {
    let tests = vec![
        ("/a/b/c", "/a/x/y"),
        ("/a", "/a/b/c"),
        ("x/y", "x/y"),
        ("../x", "../y/z"),
        ("/", "/a/b"),
    ];
    for (path, base) in tests {
        let path = PathBuf::unix(path);
        let base = PathBuf::unix(base);
        let way = relative_to(&path, &base).unwrap();
        assert_eq!(text_of(&clean(&base.join(&way.text))), text_of(&clean(&path)));
    }
}

#[test]
fn a_relative_path_is_the_shortest() {
    let length = |path: &str, base: &str| {
        let way = relative_to(&PathBuf::unix(path), &PathBuf::unix(base)).unwrap().text;
        way.split('/').filter(|part| !part.is_empty()).count()
    };
    assert_eq!(length("/a/b/c", "/a/b/c"), 0);
    assert_eq!(length("/a/b/c", "/a/b/d"), 2);
    assert_eq!(length("/a/b/c", "/"), 3);
    assert_eq!(length("x", "y/z"), 3);
    assert_eq!(length("../x", "../y/z"), 3);
}

#[test]
fn paths_are_had_as_text() {
    let path = PathBuf::unix("/a/b");
    assert_eq!(path.to_utf8_path().text, "/a/b");
    assert_eq!(path.into_utf8_path_buf().text, "/a/b");
    assert_eq!(utf8(Platform::Unix, "x").to_utf8_path().text, "x");
    let odd = PathBuf::from_bytes(Platform::Unix, vec![0x61, 0xff]);
    assert!(prek::path::utf8::path_text(&odd).is_none());
    assert_eq!(odd.to_string_lossy(), "a\u{fffd}");
}

#[test]
fn simplified_paths() {
    let path = utf8(Platform::Unix, "\\\\?\\c:\\a");
    assert_eq!(path.simplified().text, "\\\\?\\c:\\a");
    let plain = utf8(Platform::Windows, "c:\\a");
    assert_eq!(plain.simplified().text, "c:\\a");
    assert_eq!(text_of(&simplify(&PathBuf::windows("c:\\a"))), "c:\\a");
}

#[test]
fn paths_are_shown_relative_to_the_working_directory() {
    let cwd = utf8(Platform::Unix, "/home/me");
    assert_eq!(utf8(Platform::Unix, "/home/me/a/b").user_display(&cwd).text, "a/b");
    assert_eq!(utf8(Platform::Unix, "/home/you").user_display(&cwd).text, "/home/you");
    let root = utf8(Platform::Unix, "/");
    assert_eq!(utf8(Platform::Unix, "/home/me").user_display(&root).text, "/home/me");
    assert_eq!(utf8(Platform::Unix, "/home/me/\u{e9}/x").user_display(&cwd).text, "\u{e9}/x");
}

#[test]
fn simplified_paths_are_shown() {
    let windows = |text: &str| utf8(Platform::Windows, text);
    let below = |simple: &str, cwd: &str, simple_cwd: &str| {
        shown(windows(simple), &windows(cwd), &windows(simple_cwd)).text
    };
    assert_eq!(below("C:\\a\\b", "\\\\?\\C:\\a", "C:\\a"), "b");
    assert_eq!(below("c:/a/b", "C:\\a", "C:\\a"), "b");
    assert_eq!(below("C:\\a\\b", "\\\\?\\C:\\a", "\\\\?\\C:\\a"), "C:\\a\\b");
    assert_eq!(below("C:\\a\\b", "C:\\", "C:\\"), "C:\\a\\b");
    assert_eq!(below("D:\\a", "C:\\a", "C:\\a"), "D:\\a");
}

#[test]
fn normalized_paths_have_slashes() {
    assert_eq!(text_of(&normalize_path(PathBuf::windows("a\\b/c\\d"))), "a/b/c/d");
    assert_eq!(text_of(&normalize_path(PathBuf::unix("a\\b"))), "a\\b");
    let odd = PathBuf::from_bytes(Platform::Windows, vec![0x61, 0x5c, 0xff]);
    assert_eq!(normalize_path(odd).bytes, "a/\u{fffd}".as_bytes().to_vec());
}

#[test]
fn cleaned_windows_paths_stay() {
    let cleaned = |text: &str| clean(&PathBuf::windows(text)).to_string_lossy();
    let cases = [
        ("", "."),
        ("a/./b\\..\\c", "a\\c"),
        ("..\\..\\a", "..\\..\\a"),
        ("\\\\a", "\\a"),
        ("C:", "C:"),
        ("C:.", "C:"),
        ("C:..\\a\\", "C:..\\a"),
        ("C:\\..\\a", "C:\\a"),
        ("\\\\server\\share", "\\\\server\\share\\"),
        ("//server/share/a/../b", "//server/share\\b"),
        ("\\\\.\\COM1", "\\\\.\\COM1\\"),
        ("\\\\?\\C:\\a\\.\\b\\..\\..\\..\\c", "\\\\?\\C:\\c"),
        ("\\\\?\\UNC\\server\\share\\a", "\\\\?\\UNC\\server\\share\\a"),
        ("\\\\?\\name", "\\\\?\\name"),
        // A name like a drive starts a path of its own.
        ("a\\c:b", "c:b"),
        ("a\\c:\\b", "c:b"),
        ("a\\c:..\\b", "c:..\\b"),
        ("d:\\a\\c:b\\x", "c:b\\x"),
        ("\\\\?\\C:\\x\\c:b", "c:b"),
        // Behind the mark a name may hold a slash, and is read anew.
        ("\\\\?\\C:\\a/b\\c/../d", "\\\\?\\C:\\a\\b\\d"),
        ("\\\\?\\C:\\a\\/b", "\\\\?\\C:\\b"),
        ("\\\\?\\UNC\\server\\\\a\\b", "\\\\?\\UNC\\server\\a\\b"),
        ("\\\\?\\C:\\//s/t\\x", "//s/t\\x"),
        ("\\\\?\\C:\\//./\\x\\y", "//./x\\y"),
    ];
    for (text, want) in cases {
        assert_eq!(cleaned(text), want);
        assert_eq!(cleaned(want), want);
    }
    // What is read again behind a drive may change once more.
    assert_eq!(cleaned("a\\c:."), "c:.");
    assert_eq!(cleaned("c:."), "c:");
    assert_eq!(cleaned("\\\\?\\C:\\c:a/b"), "c:a/b");
    assert_eq!(cleaned("c:a/b"), "c:a\\b");
    assert_eq!(cleaned("\\\\?\\C:\\x/c:y"), "\\\\?\\C:\\x\\c:y");
    assert_eq!(cleaned("\\\\?\\C:\\x\\c:y"), "c:y");
    assert_eq!(cleaned("\\\\?\\C:\\a/b"), "\\\\?\\C:\\a\\b");
}

#[test]
fn there_is_no_way_between_drives() {
    let way = |path: &str, base: &str| {
        relative_to(&PathBuf::windows(path), &PathBuf::windows(base))
            .map(|way| way.text)
            .map_err(|err| err.message)
    };
    let lost = "Trivial strip failed: D:\\a vs. C:\\b".to_string();
    assert_eq!(way("D:\\a", "C:\\b"), Err(lost));
    assert!(way("a", "C:\\b").is_err());
    assert!(way("\\\\server\\share\\a", "\\\\server\\other\\a").is_err());
    assert_eq!(way("c:\\a", "C:\\b\\c"), Ok("..\\..\\a".to_string()));
    assert_eq!(way("C:\\a\\b", "C:/a"), Ok("b".to_string()));
}

#[test]
fn a_relative_windows_path_leads_back() {
    let way = |path: &str, base: &str| {
        relative_to(&PathBuf::windows(path), &PathBuf::windows(base)).unwrap().text
    };
    let back = |path: &str, base: &str| {
        text_of(&clean(&PathBuf::windows(base).join(&way(path, base))))
    };
    let cleaned = |path: &str| text_of(&clean(&PathBuf::windows(path)));
    let cases = [
        ("C:\\a\\b\\c", "C:\\a\\x", "..\\b\\c"),
        ("C:x", "C:a\\b", "..\\..\\x"),
        ("C:\\x", "C:\\", "x"),
        ("C:", "C:a", "..\\"),
        ("\\a", "\\b", "..\\a"),
        ("a/b", "a\\c", "..\\b"),
        ("\\\\s\\t\\a", "\\\\s\\t", "a"),
        ("\\\\s\\t", "\\\\s\\t\\a", "..\\"),
        (".\\a", "b", "..\\.\\a"),
    ];
    for (path, base, want) in cases {
        assert_eq!(way(path, base), want);
        assert_eq!(back(path, base), cleaned(path));
    }
    // The prefix is that of the base.
    assert_eq!(back("c:\\a\\b", "C:\\a"), "C:\\a\\b");
    assert_eq!(PathBuf::windows("C:\\a\\b"), PathBuf::windows("c:\\a\\b"));
    // A server awaits a share.
    assert_eq!(way("\\x", "\\\\server"), "..\\x");
    assert_eq!(back("\\x", "\\\\server"), "\\\\server\\..\\x");
    // What opens like a drive is not relative.
    let base = PathBuf::windows("C:\\a");
    assert!(relative_to(&PathBuf::windows("C:\\a\\d:x"), &base).is_err());
    assert!(relative_to(&PathBuf::windows("C:a"), &base).is_err());
    assert!(relative_to(&PathBuf::windows("C:\\a"), &PathBuf::windows("C:a")).is_err());
}
