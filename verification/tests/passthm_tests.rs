use std::io::{Cursor, Write};

use aircard::passthm::{export_passthm_archive, parse_passthm_archive, PassthmError};

fn archive(entries: &[(&str, &[u8])]) -> Vec<u8> {
    let mut buf = Cursor::new(Vec::new());
    {
        let mut zip = zip::ZipWriter::new(&mut buf);
        let options = zip::write::SimpleFileOptions::default();
        for (name, data) in entries {
            zip.start_file(*name, options).unwrap();
            zip.write_all(data).unwrap();
        }
        zip.finish().unwrap();
    }
    buf.into_inner()
}

fn synthetic() -> Vec<u8> {
    archive(&[
        ("en-0---white.png", b"\x89PNG\r\n\x1a\nfake0"),
        ("en-2-A B C--white.png", b"\x89PNG\r\n\x1a\nfake2"),
    ])
}

#[test]
fn test_parse_synthetic_passthm() {
    let test_path = "test_synthetic.passthm";
    let bytes = synthetic();

    let theme = parse_passthm_archive(test_path, &bytes, None, "Russian (Русский)", false)
        .expect("failed to parse synthetic theme");
    assert_eq!(theme.name, "test_synthetic");
    assert_eq!(theme.detected_version, "TelephonyUI-10");
    assert!(theme.has_key_preview("0"));
    assert!(theme.has_key_preview("2"));

    let leaf_names: Vec<&str> = theme.items.iter().map(|(_, leaf, _)| leaf.as_str()).collect();
    assert!(leaf_names.contains(&"_big"));
    assert!(leaf_names.contains(&"ru-0---white.png"));
    assert!(leaf_names.contains(&"ru-2-А Б В Г--white.png"));
    assert!(leaf_names.contains(&"en-2-A B C--white.png"));

    // Test bold mode
    let theme_bold = parse_passthm_archive(test_path, &bytes, None, "Japanese (日本語)", true)
        .expect("failed to parse synthetic bold theme");
    let bold_leaves: Vec<&str> = theme_bold.items.iter().map(|(_, leaf, _)| leaf.as_str()).collect();
    assert!(bold_leaves.contains(&"_big"));
    assert!(bold_leaves.contains(&"ja-0---white-bold.png"));
    assert!(bold_leaves.contains(&"ja-2-A B C--white-bold.png"));
}

#[test]
fn theme_files_are_distinct_and_in_the_cache_directory() {
    let bytes = synthetic();
    for lang in ["Russian (Русский)", "Ukrainian", "Japanese", "English", "All Languages (Universal)"] {
        for bold in [false, true] {
            let theme = parse_passthm_archive("a/b/t.passthm", &bytes, Some("TelephonyUI-9"), lang, bold)
                .expect("theme");
            assert_eq!(theme.items[0].1, "_big");
            assert!(theme.items[0].2.is_empty());
            for (i, a) in theme.items.iter().enumerate() {
                assert_eq!(a.0, "/var/mobile/Library/Caches/TelephonyUI-9");
                for b in &theme.items[i + 1..] {
                    assert_ne!(a.1, b.1);
                }
            }
            for (i, a) in theme.key_previews.iter().enumerate() {
                for b in &theme.key_previews[i + 1..] {
                    assert_ne!(a.0, b.0);
                }
            }
        }
    }
}

#[test]
fn image_bytes_are_kept_and_first_image_is_the_preview() {
    let bytes = archive(&[
        ("Theme/TelephonyUI-9/en-5---white.png", b"five"),
        ("Theme/TelephonyUI-9/other-5---white.png", b"five-again"),
        ("__MACOSX/en-6---white.png", b"skip"),
    ]);
    let theme = parse_passthm_archive(r"C:\themes\Night.passthm", &bytes, None, "English", false)
        .expect("theme");
    assert_eq!(theme.name, "Night");
    assert_eq!(theme.detected_version, "TelephonyUI-9");
    assert_eq!(theme.key_previews.len(), 1);
    assert_eq!(theme.key_previews[0], ("5".to_string(), b"five".to_vec()));
    assert!(!theme.has_key_preview("6"));
    let en = theme.items.iter().find(|t| t.1 == "en-5---white.png").expect("en file");
    assert_eq!(en.2, b"five-again".to_vec());
    assert_eq!(en.0, "/var/mobile/Library/Caches/TelephonyUI-10");
}

#[test]
fn bytes_that_are_no_archive_are_refused() {
    let r = parse_passthm_archive("x.passthm", b"definitely not a zip file", None, "English", false);
    match r {
        Err(e @ PassthmError::NotAnArchive(_)) => {
            assert!(e.message().starts_with("无法将主题文件作为 zip 归档读取"))
        },
        _ => panic!("expected NotAnArchive"),
    }
}

#[test]
fn archive_without_keypad_images_is_refused() {
    let bytes = archive(&[("readme.txt", b"hello"), ("cover.png", b"no key")]);
    let r = parse_passthm_archive("x.passthm", &bytes, None, "English", false);
    match r {
        Err(e @ PassthmError::NoKeypadImages) => {
            assert_eq!(e.message(), "主题归档中未找到有效的键盘图像素材")
        },
        _ => panic!("expected NoKeypadImages"),
    }
}

#[test]
fn exported_archive_reads_back() {
    let images = vec![
        ("en-1---white.png".to_string(), b"one".to_vec()),
        ("en-2-A B C--white.png".to_string(), b"two".to_vec()),
    ];
    let bytes = export_passthm_archive(&images).expect("export");
    let mut z = zip::ZipArchive::new(Cursor::new(bytes.clone())).expect("zip");
    assert_eq!(z.len(), 2);
    assert_eq!(z.by_index(0).unwrap().name(), "en-1---white.png");
    assert_eq!(z.by_index(0).unwrap().unix_mode().map(|m| m & 0o777), Some(0o644));
    let theme = parse_passthm_archive("mine.passthm", &bytes, None, "English", false).expect("theme");
    assert_eq!(theme.name, "mine");
    assert!(theme.has_key_preview("1"));
    assert!(theme.has_key_preview("2"));
}

#[test]
fn export_refuses_duplicate_names() {
    let images = vec![
        ("a.png".to_string(), b"1".to_vec()),
        ("a.png".to_string(), b"2".to_vec()),
    ];
    assert!(export_passthm_archive(&images).is_err());
}

#[test]
fn white_suffix_is_not_read_as_key_letters() {
    let bytes = archive(&[("en-5-white.png", b"five"), ("ru-7-WHITE-bold.png", b"seven")]);
    let theme = parse_passthm_archive("w.passthm", &bytes, None, "English", false).expect("theme");
    let leaves: Vec<&str> = theme.items.iter().map(|t| t.1.as_str()).collect();
    assert!(leaves.contains(&"en-5---white.png"));
    assert!(leaves.contains(&"en-5-J K L--white.png"));
    assert!(!leaves.iter().any(|l| l.contains("-white--white")));
    assert!(!leaves.iter().any(|l| l.contains("WHITE")));
    assert!(leaves.contains(&"en-7-P Q R S--white.png"));
}

#[test]
fn damaged_image_entry_is_refused() {
    let data = b"keypad image bytes that deflate into a stream of some length".repeat(4);
    let mut bytes = archive(&[("en-1---white.png", &data)]);
    // The entry's compressed data starts after the 30-byte local header and its name.
    let start = 30 + "en-1---white.png".len();
    for b in &mut bytes[start..start + 8] {
        *b ^= 0xff;
    }
    match parse_passthm_archive("d.passthm", &bytes, None, "English", false) {
        Err(PassthmError::UnreadableEntry(_)) => {},
        Err(e) => panic!("unexpected error: {}", e.message()),
        Ok(_) => panic!("expected the damaged entry to be refused"),
    }
}

#[test]
fn drive_prefix_is_not_part_of_the_name() {
    let bytes = synthetic();
    let theme = parse_passthm_archive("C:night.passthm", &bytes, None, "English", false).expect("theme");
    assert_eq!(theme.name, "night");
    let theme = parse_passthm_archive("C:", &bytes, None, "English", false).expect("theme");
    assert_eq!(theme.name, "CustomTheme");
}
