use cargo_fix::aggregate::Aggregator;
use cargo_fix::message::Message;
use cargo_fix::render::{plain_text, render_message};

#[test]
fn output_is_arrival_ordered_concatenation() {
    let first = Message::Fixing { file: "a.rs".to_string(), fix_count: 1 };
    let second = Message::Fixing { file: "b.rs".to_string(), fix_count: 2 };
    let third = Message::ReplaceFailed {
        file: "c.rs".to_string(),
        message: "bad span".to_string(),
    };

    let mut aggregator = Aggregator::new();
    aggregator.publish(&first);
    aggregator.publish(&second);
    aggregator.publish(&third);

    let mut expected = String::new();
    expected += &plain_text(&render_message(&first));
    expected += &plain_text(&render_message(&second));
    expected += &plain_text(&render_message(&third));
    assert_eq!(plain_text(aggregator.output_ops()), expected);
}

#[test]
fn no_two_messages_interleave() {
    let mut aggregator = Aggregator::new();
    aggregator.publish(&Message::Fixing { file: "a.rs".to_string(), fix_count: 1 });
    aggregator.publish(&Message::Fixing { file: "b.rs".to_string(), fix_count: 2 });
    aggregator.publish(&Message::Fixing { file: "c.rs".to_string(), fix_count: 3 });
    assert_eq!(
        plain_text(aggregator.output_ops()),
        "Fixing a.rs (1 fix)\nFixing b.rs (2 fixes)\nFixing c.rs (3 fixes)\n"
    );
}

#[test]
fn fresh_aggregator_has_no_output() {
    let aggregator = Aggregator::new();
    assert_eq!(plain_text(aggregator.output_ops()), "");
}
