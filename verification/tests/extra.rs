use clink::clink::build_exit_map;
use clink::clink::exit_rules_ok;
use clink::clink::Clink;
use clink::config::ClinkConfig;
use clink::mode::Mode;

#[test]
fn remove_is_identity_without_tracked_params() {
    let clink = Clink::new(ClinkConfig::default());
    assert_eq!(
        clink.find_and_replace("https://test.test/?page=2&sort=desc"),
        "https://test.test/?page=2&sort=desc"
    );
}

#[test]
fn remove_is_idempotent_end_to_end() {
    let clink = Clink::new(ClinkConfig::default());
    let once = clink.find_and_replace(
        "read this https://test.test/?abc=abc&fbclid=flksj&utm_term=x and this \
         https://youtu.be/dQw4w9WgXcQ?si=NblIBgit-qHN7MoH&t=69",
    );
    let twice = clink.find_and_replace(&once);
    assert_eq!(twice, once);
}

#[test]
fn your_mom_appends_to_empty_query() {
    let clink = Clink::new(ClinkConfig::new(Mode::YourMom));
    assert_eq!(
        clink.find_and_replace("https://test.test/"),
        "https://test.test/?utm_source=your_mom"
    );
}

#[test]
fn scoped_tracking_applies_only_to_its_domain() {
    let clink = Clink::new(ClinkConfig::default());
    assert_eq!(clink.find_and_replace("https://youtu.be/x?si=abc"), "https://youtu.be/x");
    assert_eq!(
        clink.find_and_replace("https://test.test/x?si=abc"),
        "https://test.test/x?si=abc"
    );
}

#[test]
fn evil_leaves_empty_tracked_value_alone() {
    let clink = Clink::new(ClinkConfig::new(Mode::Evil));
    assert_eq!(
        clink.find_and_replace("https://test.test/?fbclid="),
        "https://test.test/?fbclid="
    );
}

#[test]
fn evil_keeps_keys_and_untracked_values() {
    let clink = Clink::new(ClinkConfig::new(Mode::Evil));
    let out = clink.find_and_replace("https://test.test/?abc=abc&fbclid=0123456789");
    assert!(out.starts_with("https://test.test/?abc=abc&fbclid="));
    assert_eq!(out.len(), "https://test.test/?abc=abc&fbclid=0123456789".len());
}

#[test]
fn exit_unwrap_skips_unpopulated_redirect_param() {
    let clink = Clink::new(ClinkConfig::default());
    assert_eq!(
        clink.unwrap_exit_params(
            "https://facebook.com/l.php?u=&next=https%3A%2F%2Fexample.com%2F"
        ),
        "https://example.com/"
    );
}

#[test]
fn bad_exit_rules_are_rejected() {
    let unbalanced = vec![vec!["exit.sc/(".to_string(), "url".to_string()]];
    assert!(!exit_rules_ok(&unbalanced));
    assert!(build_exit_map(&unbalanced).is_err());

    let empty_row: Vec<Vec<String>> = vec![vec![]];
    assert!(build_exit_map(&empty_row).is_err());
}

#[test]
fn default_exit_rules_are_accepted() {
    let config = ClinkConfig::default();
    assert!(exit_rules_ok(&config.exit));
}

#[test]
fn malformed_link_is_left_untouched() {
    let clink = Clink::new(ClinkConfig::default());
    assert_eq!(clink.find_and_replace("no links in here"), "no links in here");
}
