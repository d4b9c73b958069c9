use display_presets::print_usage;

#[test]
fn test_print_usage_generates_expected_output() {
    let mut buffer = String::new();

    print_usage(&mut buffer);

    assert_eq!(
        buffer,
        "Usage:
    mutter-display-presets [action] [flags...]

ACTIONS:
    help - display usage info

FLAGS:
"
    );
}
