use paperlint::rules::term002::{forward_trigger, window_bounds};

#[test]
fn window_bounds_clamp_to_block_and_char_boundaries() {
    let text = "使用智能体完成实验。";
    assert_eq!(window_bounds(text, &(6..15), 2), (0, 21));
    assert_eq!(window_bounds(text, &(6..15), 0), (6, 15));
    let english = "we use attention here";
    assert_eq!(window_bounds(english, &(7..16), 3), (4, 19));
}

#[test]
fn window_bounds_clamp_past_the_end_of_the_text() {
    let text = "智能体";
    assert_eq!(window_bounds(text, &(3..6), 10), (0, 9));
    assert_eq!(window_bounds(text, &(20..30), 1), (6, 9));
}

#[test]
fn forward_trigger_accepts_frozen_phrases_and_rejects_possessives() {
    assert!(forward_trigger("是指自主实体。"));
    assert!(forward_trigger("是一种实体。"));
    assert!(forward_trigger("，即自主实体。"));
    assert!(forward_trigger("定义为自主实体。"));
    assert!(forward_trigger("表示自主实体。"));
    assert!(forward_trigger(": a weighting mechanism."));
    assert!(forward_trigger(" (also known as a model)."));
    assert!(forward_trigger(", i.e., the weights."));
    assert!(forward_trigger(" refers to weights."));
    assert!(forward_trigger(" is defined as weights."));
    assert!(forward_trigger(" denotes weights."));
    assert!(forward_trigger(" stands for weights."));
    assert!(!forward_trigger("的性能是衡量标准。"));
    assert!(!forward_trigger("机制仍在发展中。"));
    assert!(!forward_trigger(" improves accuracy."));
}

#[test]
fn forward_trigger_ignores_case_of_english_phrases() {
    assert!(forward_trigger(" REFERS  TO weights."));
    assert!(forward_trigger(" Stands For weights."));
    assert!(!forward_trigger(" referring to weights."));
}
