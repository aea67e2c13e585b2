use multipass_video::media::{
    at_most, built_in_is_stale, extension, intermission_audio_path, intermission_service,
    music_file_name, offer, playable, valid_file_name, AudioStep, DirEntry, FileEntry, FileMeta,
    MUSIC_NAMES,
};
use multipass_video::text::{
    chars_of, has_text, is_at, is_text, is_white_space, replace, string_of, to_ascii_lower, to_hex,
    trim,
};

#[test]
fn file_names_are_bare() {
    for ok in ["a.mp4", "My Film (2024).webm", "x.MOV"] {
        assert!(valid_file_name(ok) && playable(ok), "{ok}");
    }
    for bad in [
        "",
        "..",
        "../a.mp4",
        "sub/a.mp4",
        "sub\\a.mp4",
        ".hidden.mp4",
        "a\0.mp4",
    ] {
        assert!(!valid_file_name(bad), "{bad:?}");
    }
    for bad in ["a.mkv", "a.txt", "mp4", "a"] {
        assert!(!playable(bad), "{bad}");
    }
}

#[test]
fn every_playable_extension_in_any_case() {
    for e in ["mp4", "m4v", "webm", "mov", "ogv", "ogg"] {
        assert!(playable(&format!("a.{e}")));
        assert!(playable(&format!("a.{}", e.to_uppercase())));
        assert!(!playable(&format!("a.{e}x")));
    }
    assert!(!playable("a.mp4."));
    assert!(!playable(".mp4"));
    assert!(playable("..mp4"));
    assert!(playable("a.mp4/"));
}

#[test]
fn extensions_are_those_of_paths() {
    for path in [
        "", "/", ".", "..", "a", "a.", ".a", "..a", "a.b", "a.b.c", "a/b.c", "a.b/c", "a.b/", "a.b/.",
        "a.b/./", "a.b//.//", "./", "../", "a/..", "a/../", "a.b/..", "/.", "//.", ".a/.", "a.b/...",
        "...", "....", "a/.b.c", "\u{e9}.\u{e9}", "a b.c d", "a.b\\c",
    ] {
        let expected = std::path::Path::new(path)
            .extension()
            .map(|e| e.to_str().unwrap().to_string());
        let got = extension(path).map(|e| string_of(&e));
        assert_eq!(got, expected, "{path:?}");
    }
}

#[test]
fn white_space_and_trimming_are_those_of_str() {
    for n in 0..=0x10ffffu32 {
        if let Some(c) = char::from_u32(n) {
            assert_eq!(is_white_space(c), c.is_whitespace(), "{n:x}");
        }
    }
    for s in ["", " ", "a", " a ", "\t\u{3000}a b\u{85}\n", "\u{e9} ", "\u{200b}x"] {
        assert_eq!(trim(s), s.trim());
    }
}

#[test]
fn text_functions_are_those_of_str() {
    for (s, from, to) in [
        ("a{{error}}b", "{{error}}", ""),
        ("{{error}}{{error}}", "{{error}}", "no"),
        ("{{{error}}}", "{{error}}", "x"),
        ("aaa", "aa", "b"),
        ("", "x", "y"),
        ("\u{e9}x\u{e9}", "x", "\u{e9}"),
    ] {
        assert_eq!(replace(s, from, to), s.replace(from, to));
    }
    let s = chars_of("text/html,*/*");
    assert!(has_text(&s, &chars_of("text/html")));
    assert!(has_text(&s, &chars_of("*/*")));
    assert!(has_text(&s, &[]));
    assert!(!has_text(&s, &chars_of("text/htmlx")));
    assert!(!has_text(&[], &['a']));
    assert!(is_at(&s, &chars_of("/"), 4));
    assert!(!is_at(&s, &chars_of("/"), 5));
    assert!(is_text(&s, "text/html,*/*"));
    assert!(!is_text(&s, "text/html"));
    assert_eq!(to_ascii_lower(&chars_of("aZ\u{c9}[")), chars_of("az\u{c9}["));
    assert_eq!(to_hex(&[0x00, 0x0f, 0xa0, 0xff]), "000fa0ff");
    assert_eq!(to_hex(&[]), "");
}

fn entry(name: &str, meta: Option<(bool, u64)>) -> DirEntry {
    DirEntry {
        name: name.to_string(),
        meta: meta.map(|(is_file, len)| FileMeta { is_file, len }),
    }
}

#[test]
fn the_listing_is_sorted_and_holds_what_is_offered() {
    let entries = [
        entry("z.mp4", Some((true, 3))),
        entry("dir.mp4", Some((false, 0))),
        entry("notes.txt", Some((true, 1))),
        entry("\u{e9}.webm", Some((true, 5))),
        entry(".hidden.mp4", Some((true, 1))),
        entry("a.mp4", Some((true, 2))),
        entry("gone.mp4", None),
        entry("B.MOV", Some((true, 4))),
    ];
    let file = |name: &str, size: u64| FileEntry { name: name.to_string(), size };
    assert_eq!(
        offer(&entries),
        vec![file("B.MOV", 4), file("a.mp4", 2), file("z.mp4", 3), file("\u{e9}.webm", 5)]
    );
    assert_eq!(offer(&[]), vec![]);
    // Entries of one name keep their order.
    let twins = [entry("a.ogg", Some((true, 2))), entry("a.ogg", Some((true, 1)))];
    assert_eq!(offer(&twins), vec![file("a.ogg", 2), file("a.ogg", 1)]);
    for a in ["", "a", "ab", "b", "\u{e9}", "\u{ffff}", "\u{10000}"] {
        for b in ["", "a", "ab", "b", "\u{e9}", "\u{ffff}", "\u{10000}"] {
            assert_eq!(at_most(a, b), a <= b);
        }
    }
}

#[test]
fn the_first_music_file_is_played() {
    let search = |present: &[&str]| {
        let mut found = false;
        let mut tried = 0;
        loop {
            match intermission_audio_path(tried, found) {
                AudioStep::Probe { name } => {
                    found = present.contains(&name.as_str());
                    tried += 1;
                }
                AudioStep::Use { name } => return (true, name),
                AudioStep::BuiltIn { name } => return (false, name),
            }
        }
    };
    assert_eq!(search(&[]), (false, "intermission-default.m4a".to_string()));
    assert_eq!(
        search(&["intermission.flac", "intermission.m4a", "intermission.aac"]),
        (true, "intermission.m4a".to_string())
    );
    assert_eq!(search(&["intermission.flac"]), (true, "intermission.flac".to_string()));
    let names: Vec<String> = (0..MUSIC_NAMES).map(music_file_name).collect();
    assert_eq!(
        names.join(" "),
        "intermission.mp3 intermission.m4a intermission.aac intermission.ogg intermission.opus \
         intermission.wav intermission.flac"
    );
}

#[test]
fn built_in_music_is_written_once() {
    assert!(built_in_is_stale(None, b"pad"));
    assert!(built_in_is_stale(Some(b"pat"), b"pad"));
    assert!(built_in_is_stale(Some(b"pads"), b"pad"));
    assert!(!built_in_is_stale(Some(b"pad"), b"pad"));
}

#[test]
fn aac_is_served_as_mp4() {
    for path in ["/m/intermission.m4a", "intermission.aac"] {
        assert_eq!(intermission_service(path), Some("audio/mp4".to_string()));
    }
    for path in ["intermission.mp3", "intermission.M4A", "m4a", ""] {
        assert_eq!(intermission_service(path), None);
    }
}
