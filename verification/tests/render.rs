use cargo_fix::message::Message;
use cargo_fix::render::{plain_text, render_message, RenderOp, PLEASE_REPORT_THIS_BUG};

#[test]
fn fixing_renders_one_fix() {
    let msg = Message::Fixing { file: "src/lib.rs".to_string(), fix_count: 1 };
    let ops = render_message(&msg);
    assert_eq!(plain_text(&ops), "Fixing src/lib.rs (1 fix)\n");
}

#[test]
fn fixing_renders_two_fixes() {
    let msg = Message::Fixing { file: "src/lib.rs".to_string(), fix_count: 2 };
    let ops = render_message(&msg);
    assert_eq!(plain_text(&ops), "Fixing src/lib.rs (2 fixes)\n");
}

#[test]
fn fixing_renders_large_count() {
    let msg = Message::Fixing { file: "main.rs".to_string(), fix_count: 120 };
    let ops = render_message(&msg);
    assert_eq!(plain_text(&ops), "Fixing main.rs (120 fixes)\n");
}

#[test]
fn replace_failed_renders_diagnostic_and_guidance() {
    let msg = Message::ReplaceFailed {
        file: "foo.rs".to_string(),
        message: "mismatched spans".to_string(),
    };
    let ops = render_message(&msg);
    let expected = format!(
        "warning: error applying suggestions to `foo.rs`\n\
         The full error message was:\n\n> mismatched spans\n\n{}",
        PLEASE_REPORT_THIS_BUG
    );
    assert_eq!(plain_text(&ops), expected);
}

#[test]
fn fix_failed_renders_crate_and_files_in_order() {
    let msg = Message::FixFailed {
        files: vec!["a.rs".to_string(), "b.rs".to_string()],
        krate: Some("foo".to_string()),
    };
    let ops = render_message(&msg);
    let expected = format!(
        "warning: failed to automatically apply fixes suggested by rustc to crate `foo`\n\
         \nafter fixes were automatically applied the compiler reported errors within these files:\n\n\
         \x20 * a.rs\n\
         \x20 * b.rs\n\
         \n{}",
        PLEASE_REPORT_THIS_BUG
    );
    assert_eq!(plain_text(&ops), expected);
    // each file is one bullet op of its own, a.rs before b.rs
    let texts: Vec<&str> = ops
        .iter()
        .filter_map(|op| match op {
            RenderOp::Text(t) => Some(t.as_str()),
            _ => None,
        })
        .collect();
    let pos_a = texts.iter().position(|t| *t == "  * a.rs\n").unwrap();
    let pos_b = texts.iter().position(|t| *t == "  * b.rs\n").unwrap();
    assert!(pos_a < pos_b);
}

#[test]
fn fix_failed_without_crate_name() {
    let msg = Message::FixFailed { files: vec!["x.rs".to_string()], krate: None };
    let ops = render_message(&msg);
    let expected = format!(
        "warning: failed to automatically apply fixes suggested by rustc\n\
         \nafter fixes were automatically applied the compiler reported errors within these files:\n\n\
         \x20 * x.rs\n\
         \n{}",
        PLEASE_REPORT_THIS_BUG
    );
    assert_eq!(plain_text(&ops), expected);
}

#[test]
fn fix_failed_with_no_files_skips_the_list() {
    let msg = Message::FixFailed { files: vec![], krate: Some("bar".to_string()) };
    let ops = render_message(&msg);
    let expected = format!(
        "warning: failed to automatically apply fixes suggested by rustc to crate `bar`\n{}",
        PLEASE_REPORT_THIS_BUG
    );
    assert_eq!(plain_text(&ops), expected);
}

#[test]
fn every_rendering_ends_with_a_reset() {
    let msgs = vec![
        Message::Fixing { file: "a.rs".to_string(), fix_count: 1 },
        Message::ReplaceFailed { file: "a.rs".to_string(), message: "m".to_string() },
        Message::FixFailed { files: vec![], krate: None },
    ];
    for msg in &msgs {
        let ops = render_message(msg);
        assert!(matches!(ops.last(), Some(RenderOp::Reset)));
    }
}
