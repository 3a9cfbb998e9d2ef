use aircard::flasher::{
    batch_route, cleanup_steps, staged_write_outcome, BatchRoute, CleanupStep,
    flash_passcode_theme, flash_wallet_skin, hex_token, staging_plan, FlashCommand, FlashKind,
    GroupKind, Notice, WriteResult,
};

fn failed(summary: &str, detail: &str) -> WriteResult {
    WriteResult::Failed { summary: summary.to_string(), detail: detail.to_string() }
}

#[test]
fn test_hex_token() {
    let bytes: [u8; 10] = [0x00, 0x0f, 0x10, 0x7a, 0x80, 0x9c, 0xab, 0xcd, 0xef, 0xff];
    let token = hex_token(&bytes);
    assert_eq!(token.len(), 20);
    assert!(token.chars().all(|c| c.is_ascii_hexdigit()));
    assert_eq!(token, "000f107a809cabcdefff");
}

#[test]
fn hex_token_of_nothing_is_empty() {
    assert_eq!(hex_token(&[]), "");
}

#[test]
fn wallet_run_writes_artwork_then_both_caches() {
    let (mut run, step) = flash_wallet_skin("OM6NYhwXMZrAw0sRUjR62wmF4ZQ=", b"png", b"pdf!");
    assert!(matches!(run.kind, FlashKind::WalletSkin));
    assert_eq!(run.groups.len(), 3);
    let art = &run.groups[0];
    assert!(matches!(art.kind, GroupKind::CardArt));
    assert_eq!(
        art.target_dir,
        "/var/mobile/Library/Passes/Cards/OM6NYhwXMZrAw0sRUjR62wmF4ZQ=.pkpass"
    );
    assert_eq!(
        art.leaves,
        vec![
            "cardBackgroundCombined@3x.png".to_string(),
            "cardBackgroundCombined@2x.png".to_string(),
            "cardBackgroundCombined.pdf".to_string()
        ]
    );
    assert_eq!(art.payloads, vec![b"png".to_vec(), b"png".to_vec(), b"pdf!".to_vec()]);
    assert_eq!(run.groups[1].target_dir, "/var/mobile/Library/Passes/Cards/OM6NYhwXMZrAw0sRUjR62wmF4ZQ=.cache");
    assert_eq!(run.groups[2].target_dir, "/var/mobile/Library/Passes/Cards/OM6NYhwXMZrAw0sRUjR62wmF4ZQ=.pkcache");
    assert!(matches!(step.command, FlashCommand::WriteBatch { group: 0 }));
    match &step.notices[0] {
        Notice::Log(s) => assert_eq!(s, "目标卡片哈希：OM6NYhwXMZrAw0sRUjR62wmF4ZQ="),
        _ => panic!("expected a log line"),
    }
    match &step.notices[1] {
        Notice::Log(s) => assert_eq!(s, "卡面负载大小：PNG 3 字节，PDF 4 字节"),
        _ => panic!("expected a log line"),
    }
    match &step.notices[2] {
        Notice::Progress { step, total, .. } => assert_eq!((*step, *total), (1, 3)),
        _ => panic!("expected progress"),
    }

    let s = run.advance(WriteResult::Written);
    assert!(matches!(s.command, FlashCommand::WriteBatch { group: 1 }));
    let s = run.advance(WriteResult::Written);
    assert!(matches!(s.command, FlashCommand::WriteBatch { group: 2 }));
    let s = run.advance(WriteResult::Written);
    assert!(matches!(s.command, FlashCommand::Finish(Ok(()))));
    match &s.notices[0] {
        Notice::Progress { step, total, message } => {
            assert_eq!((*step, *total), (3, 3));
            assert_eq!(message, "卡面更新成功！");
        },
        _ => panic!("expected progress"),
    }
}

#[test]
fn failed_artwork_file_ends_the_run_with_its_error() {
    let (mut run, _) = flash_wallet_skin("OM6NYhwXMZrAw0sRUjR62wmF4ZQ=", b"png", b"pdf");
    let s = run.advance(failed("busy", "busy: device locked"));
    assert!(matches!(s.command, FlashCommand::WriteFile { group: 0, item: 0 }));
    match &s.notices[0] {
        Notice::Log(l) => assert_eq!(l, "提示：批次写入失败（busy），正在尝试逐个写入素材..."),
        _ => panic!("expected a log line"),
    }
    let s = run.advance(WriteResult::Written);
    assert!(matches!(s.command, FlashCommand::WriteFile { group: 0, item: 1 }));
    let s = run.advance(failed("io", "io: broken pipe"));
    match s.command {
        FlashCommand::Finish(Err(e)) => {
            assert_eq!(e, "无法写入卡片素材 cardBackgroundCombined@2x.png: io: broken pipe")
        },
        _ => panic!("expected the run to fail"),
    }
}

#[test]
fn failed_cache_file_is_passed_over() {
    let (mut run, _) = flash_wallet_skin("OM6NYhwXMZrAw0sRUjR62wmF4ZQ=", b"png", b"pdf");
    run.advance(WriteResult::Written);
    let s = run.advance(failed("x", "x"));
    assert!(matches!(s.command, FlashCommand::WriteFile { group: 1, item: 0 }));
    let s = run.advance(failed("x", "x"));
    assert!(matches!(s.command, FlashCommand::WriteFile { group: 1, item: 1 }));
    let s = run.advance(failed("x", "x"));
    assert!(matches!(s.command, FlashCommand::WriteFile { group: 1, item: 2 }));
    let s = run.advance(failed("x", "x"));
    assert!(matches!(s.command, FlashCommand::WriteBatch { group: 2 }));
}

fn item(dir: &str, leaf: &str, data: &[u8]) -> (String, String, Vec<u8>) {
    (dir.to_string(), leaf.to_string(), data.to_vec())
}

#[test]
fn theme_items_are_grouped_by_directory_in_order() {
    let items = vec![
        item("/var/mobile/Library/Caches/TelephonyUI-9", "_big", b""),
        item("/var/mobile/Library/Caches/TelephonyUI-10", "en-1---white.png", b"1"),
        item("/var/mobile/Library/Caches/TelephonyUI-9", "en-2---white.png", b"2"),
    ];
    let (mut run, step) = flash_passcode_theme(&items);
    assert!(matches!(run.kind, FlashKind::PasscodeTheme));
    assert_eq!(run.groups.len(), 2);
    assert_eq!(run.groups[0].target_dir, "/var/mobile/Library/Caches/TelephonyUI-10");
    assert_eq!(run.groups[0].label, "TelephonyUI-10");
    assert_eq!(run.groups[0].leaves, vec!["en-1---white.png".to_string()]);
    assert_eq!(run.groups[1].target_dir, "/var/mobile/Library/Caches/TelephonyUI-9");
    assert_eq!(
        run.groups[1].leaves,
        vec!["_big".to_string(), "en-2---white.png".to_string()]
    );
    assert_eq!(run.groups[1].payloads, vec![b"".to_vec(), b"2".to_vec()]);
    match &step.notices[0] {
        Notice::Log(l) => assert_eq!(l, "正在写入密码键盘主题（3 个素材）..."),
        _ => panic!("expected a log line"),
    }
    assert!(matches!(step.command, FlashCommand::WriteBatch { group: 0 }));
    let s = run.advance(failed("locked", "locked!"));
    assert!(matches!(s.command, FlashCommand::WriteFile { group: 0, item: 0 }));
    let s = run.advance(failed("locked", "locked!"));
    match s.command {
        FlashCommand::Finish(Err(e)) => assert_eq!(e, "无法写入按钮素材 en-1---white.png: locked!"),
        _ => panic!("expected the run to fail"),
    }
}

#[test]
fn empty_theme_finishes_at_once() {
    let (_, step) = flash_passcode_theme(&[]);
    assert!(matches!(step.command, FlashCommand::Finish(Ok(()))));
}

#[test]
fn staging_plan_for_one_and_two_files() {
    let one = staging_plan("/Src/", "/Dst/", "/Rec/", "abcd", &["a.png".to_string()]);
    assert_eq!(one.source, "/Src/abcd");
    assert_eq!(one.link_dest, "/Dst/abcd");
    assert_eq!(one.recovered, "/Rec/abcd");
    assert_eq!(
        one.books_identifiers,
        vec!["../..//Src/abcd/p0/p1/p2/link".to_string(), "../..//Src/abcd/payload".to_string()]
    );
    assert_eq!(one.payload_objects, vec!["/Src/abcd/payload".to_string()]);
    assert_eq!(one.link_object, "/Src/abcd/p0/p1/p2/link");
    assert_eq!(
        one.assets[1],
        ("../..//Src/abcd/payload".to_string(), "/Dst/abcd/a.png".to_string())
    );
    let two = staging_plan("S", "L", "R", "t", &["a".to_string(), "b".to_string()]);
    assert_eq!(
        two.books_identifiers,
        vec![
            "../../St/p0/p1/p2/link".to_string(),
            "../../St/payload_0".to_string(),
            "../../St/payload_1".to_string()
        ]
    );
    assert_eq!(two.assets[2], ("../../St/payload_1".to_string(), "Lt/b".to_string()));
}

#[test]
fn batch_routes_and_outcomes() {
    assert_eq!(batch_route(0), BatchRoute::Skip);
    assert_eq!(batch_route(1), BatchRoute::Single);
    assert_eq!(batch_route(5), BatchRoute::Batch);
    assert!(matches!(staged_write_outcome(WriteResult::Written, WriteResult::Written), WriteResult::Written));
    match staged_write_outcome(failed("staging", "staging: x"), failed("restore", "restore")) {
        WriteResult::Failed { summary, detail } => {
            assert_eq!(summary, "staging");
            assert_eq!(detail, "staging: x");
        },
        WriteResult::Written => panic!("expected a failure"),
    }
    match staged_write_outcome(WriteResult::Written, failed("io", "io: denied")) {
        WriteResult::Failed { summary, detail } => {
            assert_eq!(summary, "清理期间无法恢复 Books 状态");
            assert_eq!(detail, "清理期间无法恢复 Books 状态: io: denied");
        },
        WriteResult::Written => panic!("expected a failure"),
    }
}

#[test]
fn cleanup_after_staging() {
    let plan = staging_plan("/Src/", "/Dst/", "/Rec/", "t", &["a".to_string()]);
    let steps = cleanup_steps(&plan);
    assert_eq!(steps.len(), 3);
    assert!(matches!(&steps[0], CleanupStep::RemovePath(p) if p == "/Dst/t"));
    assert!(matches!(&steps[1], CleanupStep::RemovePath(p) if p == "/Rec/t"));
    assert!(matches!(&steps[2], CleanupStep::RemoveTree(p) if p == "/Src/t"));
}
