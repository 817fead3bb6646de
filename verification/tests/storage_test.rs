use slate::storage::{
    decode_content, generate_diff, render_diff_lines, temp_file_name, DiffLine, DiffTag,
    StorageError,
};

#[test]
fn test_generate_diff() {
    let disk = "Ligne 1\nLigne 2 modifiée\nLigne 3\n";
    let memory = "Ligne 1\nLigne 2 locale\nLigne 3\n";
    let diff = generate_diff(disk, memory);

    assert!(diff.contains("- Ligne 2 modifiée"));
    assert!(diff.contains("+ Ligne 2 locale"));
}

#[test]
fn diff_of_equal_texts_marks_every_line_equal() {
    let diff = generate_diff("a\nb\n", "a\nb\n");
    assert_eq!(diff, "  a\n  b\n");
    assert_eq!(generate_diff("", ""), "");
}

#[test]
fn diff_full_rendering() {
    let diff = generate_diff("a\nb\n", "a\nc\n");
    assert_eq!(diff, "  a\n- b\n+ c\n");
}

#[test]
fn render_diff_lines_marks() {
    let lines = vec![
        DiffLine { tag: DiffTag::Equal, text: "x\n".to_string() },
        DiffLine { tag: DiffTag::Delete, text: "y\n".to_string() },
        DiffLine { tag: DiffTag::Insert, text: "z".to_string() },
    ];
    assert_eq!(render_diff_lines(&lines), "  x\n- y\n+ z");
    assert_eq!(render_diff_lines(&Vec::new()), "");
}

#[test]
fn decode_content_valid_and_invalid() {
    let ok = decode_content("/tmp/a.md", "héllo 🚀".as_bytes().to_vec());
    assert_eq!(ok.unwrap(), "héllo 🚀");

    match decode_content("/tmp/b.md", vec![0x66, 0xff, 0x66]) {
        Err(StorageError::InvalidUtf8(p)) => assert_eq!(p, "/tmp/b.md"),
        _ => panic!("expected InvalidUtf8"),
    }
}

#[test]
fn temp_file_names() {
    assert_eq!(temp_file_name("/home/u/note.md", 4242), ".tmp_slate_note.md.4242");
    assert_eq!(temp_file_name("/", 7), ".tmp_slate_slate_note.7");
    assert_eq!(temp_file_name("rel/x.txt", 0), ".tmp_slate_x.txt.0");
}

#[test]
fn storage_error_messages() {
    assert_eq!(
        StorageError::NotFound("/a".to_string()).message(),
        "Le fichier n'a pas été trouvé : /a"
    );
    assert_eq!(
        StorageError::PermissionDenied("/b".to_string()).message(),
        "Permission refusée pour le fichier : /b"
    );
    assert_eq!(
        StorageError::InvalidUtf8("/c".to_string()).message(),
        "Le fichier n'est pas un texte UTF-8 valide : /c"
    );
    let io = StorageError::Io {
        path: "/d".to_string(),
        source: std::io::Error::new(std::io::ErrorKind::Other, "boom"),
    };
    assert_eq!(io.message(), "Erreur d'accès à /d : boom");
}

#[test]
fn diff_lines_each_begin_with_a_mark() {
    assert_eq!(generate_diff("a\rb\n", "a\rc\n"), "  a\r- b\n+ c\n");
    assert_eq!(generate_diff("x", "y"), "- x+ y");
    let d = generate_diff("un\ndeux\r\ntrois\n", "un\ntrois\nquatre");
    for (i, line) in d.split('\n').enumerate() {
        if i + 1 < d.split('\n').count() || !line.is_empty() {
            assert!(line.starts_with("- ") || line.starts_with("+ ") || line.starts_with("  "));
        }
    }
}
