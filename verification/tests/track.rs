use sunflower_field::track::render_trace;
use sunflower_field::track::Item;
use sunflower_field::track::Tracer;

fn traced_sample(tracer: &mut Tracer) {
    // One top-level call H(v = 1, x = 0.500) with one nested call
    // F(u = 2) = (1, 2, 3), finishing with a numeric result.
    tracer.push_stack(Item::Start("H".to_string()));
    tracer.push_stack(Item::ArgUsize("v".to_string(), 1));
    tracer.push_stack(Item::ArgNum("x".to_string(), "0.500".to_string()));
    tracer.push_stack(Item::FinishArg);
    tracer.push_stack(Item::Start("F".to_string()));
    tracer.push_stack(Item::ArgUsize("u".to_string(), 2));
    tracer.push_stack(Item::FinishArg);
    tracer.push_stack(Item::FinishRgb(1, 2, 3));
    tracer.push_stack(Item::FinishNum("3.141".to_string()));
}

#[test]
fn trace_balance_depth_returns_to_zero() {
    let mut tracer = Tracer::new();
    traced_sample(&mut tracer);
    assert_eq!(tracer.depth(), 0, "a completed top-level call closes every start");
    let items = tracer.take_stack();
    let starts = items
        .iter()
        .filter(|i| matches!(i, Item::Start(_)))
        .count();
    let finishes = items
        .iter()
        .filter(|i| matches!(i, Item::FinishRgb(_, _, _) | Item::FinishNum(_)))
        .count();
    assert_eq!(starts, 2);
    assert_eq!(finishes, 2);
    assert_eq!(starts, finishes);
}

#[test]
fn trace_depth_counts_open_calls() {
    let mut tracer = Tracer::new();
    tracer.push_stack(Item::Start("outer".to_string()));
    assert_eq!(tracer.depth(), 1);
    tracer.push_stack(Item::Start("inner".to_string()));
    assert_eq!(tracer.depth(), 2);
    tracer.push_stack(Item::FinishNum("1".to_string()));
    assert_eq!(tracer.depth(), 1);
    tracer.push_stack(Item::FinishNum("2".to_string()));
    assert_eq!(tracer.depth(), 0);
}

#[test]
fn take_stack_drains_and_resets() {
    let mut tracer = Tracer::new();
    tracer.push_stack(Item::Start("f".to_string()));
    tracer.push_stack(Item::FinishNum("0".to_string()));
    let items = tracer.take_stack();
    assert_eq!(items.len(), 2);
    let empty = tracer.take_stack();
    assert!(empty.is_empty(), "the stack is cleared after being consumed");
}

#[test]
fn should_track_flag_defaults_off() {
    let mut tracer = Tracer::new();
    assert!(!tracer.should_track());
    tracer.set_should_track(true);
    assert!(tracer.should_track());
    tracer.set_should_track(false);
    assert!(!tracer.should_track());
}

#[test]
fn render_trace_indents_nested_calls() {
    let mut tracer = Tracer::new();
    traced_sample(&mut tracer);
    let items = tracer.take_stack();
    let lines = render_trace(&items);
    assert_eq!(
        lines,
        vec![
            "H(v = 1, x = 0.500) = 3.141".to_string(),
            "  F(u = 2) = (1, 2, 3)".to_string(),
        ],
    );
}

#[test]
fn render_trace_three_levels() {
    let mut tracer = Tracer::new();
    tracer.push_stack(Item::Start("a".to_string()));
    tracer.push_stack(Item::ArgUsize("n".to_string(), 10));
    tracer.push_stack(Item::FinishArg);
    tracer.push_stack(Item::Start("b".to_string()));
    tracer.push_stack(Item::ArgUsize("n".to_string(), 9));
    tracer.push_stack(Item::FinishArg);
    tracer.push_stack(Item::Start("c".to_string()));
    tracer.push_stack(Item::ArgUsize("n".to_string(), 8));
    tracer.push_stack(Item::FinishArg);
    tracer.push_stack(Item::FinishNum("8".to_string()));
    tracer.push_stack(Item::FinishNum("9".to_string()));
    tracer.push_stack(Item::Start("d".to_string()));
    tracer.push_stack(Item::ArgUsize("n".to_string(), 123));
    tracer.push_stack(Item::FinishArg);
    tracer.push_stack(Item::FinishNum("7".to_string()));
    tracer.push_stack(Item::FinishNum("10".to_string()));
    let items = tracer.take_stack();
    let lines = render_trace(&items);
    assert_eq!(
        lines,
        vec![
            "a(n = 10) = 10".to_string(),
            "  b(n = 9) = 9".to_string(),
            "    c(n = 8) = 8".to_string(),
            "  d(n = 123) = 7".to_string(),
        ],
    );
}
