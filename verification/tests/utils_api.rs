use clink::config::ClinkConfig;
use clink::mode::Mode;
use clink::params::create_index;
use clink::params::get_default_params;
use clink::query::swap_two_chars;
use clink::utils::find_and_replace;

fn config_with(mode: Mode, replace_to: &str) -> ClinkConfig {
    ClinkConfig {
        mode,
        replace_to: replace_to.to_string(),
        sleep_duration: 150,
        params: get_default_params(),
        exit: vec![],
        verbose: false,
    }
}

#[test]
fn utils_naive() {
    assert_eq!(
        find_and_replace(
            "https://test.test/?fbclid=dsadsa&utm_source=fafa&utm_campaign=fafas&utm_medium=adsa",
            &ClinkConfig::default(),
            &create_index(&get_default_params()),
        ),
        "https://test.test/"
    );
    assert_eq!(
        find_and_replace(
            "https://test.test/?fbclid=dsadsa&utm_source=fafa&utm_campaign=fafas&utm_medium=adsa",
            &config_with(Mode::YourMom, "your_mom"),
            &create_index(&get_default_params()),
        ),
        "https://test.test/?utm_source=your_mom"
    );
    assert_ne!(
        find_and_replace(
            "https://test.test/?fbclid=IwAR3l6qn8TzOT254dIa7jBAM1dG3OHn3f8ZoRGsADTmqG1Zfmmko-oRhE8Qs&utm_source=IwAR3l6qn8TzOT254dIa7jBAM1dG3OHn3f8ZoRGsADTmqG1Zfmmko-oRhE8Qs&utm_campaign=IwAR3l6qn8TzOT254dIa7jBAM1dG3OHn3f8ZoRGsADTmqG1Zfmmko-oRhE8Qs&utm_medium=IwAR3l6qn8TzOT254dIa7jBAM1dG3OHn3f8ZoRGsADTmqG1Zfmmko-oRhE8Qs",
            &config_with(Mode::Evil, "your_mom"),
            &create_index(&get_default_params()),
        ),
        "https://test.test/?fbclid=IwAR3l6qn8TzOT254dIa7jBAM1dG3OHn3f8ZoRGsADTmqG1Zfmmko-oRhE8Qs&utm_source=IwAR3l6qn8TzOT254dIa7jBAM1dG3OHn3f8ZoRGsADTmqG1Zfmmko-oRhE8Qs&utm_campaign=IwAR3l6qn8TzOT254dIa7jBAM1dG3OHn3f8ZoRGsADTmqG1Zfmmko-oRhE8Qs&utm_medium=IwAR3l6qn8TzOT254dIa7jBAM1dG3OHn3f8ZoRGsADTmqG1Zfmmko-oRhE8Qs"
    );
}

#[test]
fn utils_should_preserve_query() {
    assert_eq!(
        find_and_replace(
            "https://test.test/?abc=abc",
            &ClinkConfig::default(),
            &create_index(&get_default_params()),
        ),
        "https://test.test/?abc=abc"
    );
    assert_eq!(
        find_and_replace(
            "https://test.test/?abc=abc",
            &config_with(Mode::YourMom, "your_mom"),
            &create_index(&get_default_params()),
        ),
        "https://test.test/?abc=abc&utm_source=your_mom"
    );
}

#[test]
fn utils_multiple_params() {
    assert_eq!(
        find_and_replace(
            "https://test.test/?abc=abc&fbclid=flksj",
            &ClinkConfig::default(),
            &create_index(&get_default_params()),
        ),
        "https://test.test/?abc=abc"
    );
    assert_eq!(
        find_and_replace(
            "https://test.test/?abc=abc&fbclid=flksj",
            &config_with(Mode::YourMom, "your_mom"),
            &create_index(&get_default_params()),
        ),
        "https://test.test/?abc=abc&utm_source=your_mom"
    );
}

#[test]
fn utils_multiple_links() {
    assert_eq!(
        find_and_replace(
            "https://test.test/?abc=abc&fbclid=flksj\nhttps://test.test/?abc=abc&fbclid=flksj",
            &ClinkConfig::default(),
            &create_index(&get_default_params()),
        ),
        "https://test.test/?abc=abc\nhttps://test.test/?abc=abc"
    );
    assert_eq!(
        find_and_replace(
            "https://test.test/?abc=abc&fbclid=flksj\nhttps://test.test/?abc=abc&fbclid=flksj",
            &config_with(Mode::YourMom, "your_mom"),
            &create_index(&get_default_params()),
        ),
        "https://test.test/?abc=abc&utm_source=your_mom\nhttps://test.test/?abc=abc&utm_source=your_mom"
    );
}

#[test]
fn utils_multiple_links_and_text() {
    assert_eq!(
        find_and_replace(
            "some text here https://test.test/?abc=abc&fbclid=flksj here \nand herehttps://test.test/?abc=abc&fbclid=flksj",
            &ClinkConfig::default(),
            &create_index(&get_default_params()),
        ),
        "some text here https://test.test/?abc=abc here \nand herehttps://test.test/?abc=abc"
    );
    assert_eq!(
        find_and_replace(
            "some text here https://test.test/?abc=abc&fbclid=flksj here \nand herehttps://test.test/?abc=abc&fbclid=flksj",
            &config_with(Mode::YourMom, "your_mom"),
            &create_index(&get_default_params()),
        ),
        "some text here https://test.test/?abc=abc&utm_source=your_mom here \nand herehttps://test.test/?abc=abc&utm_source=your_mom"
    );
}

#[test]
fn utils_replace() {
    assert_eq!(
        find_and_replace(
            "https://test.test/?fbclid=dsadsa&utm_source=fafa&utm_campaign=fafas&utm_medium=adsa",
            &config_with(Mode::Replace, "foo"),
            &create_index(&get_default_params()),
        ),
        "https://test.test/?fbclid=foo&utm_source=foo&utm_campaign=foo&utm_medium=foo"
    );
}

#[test]
fn utils_custom_params() {
    assert_eq!(
        find_and_replace(
            "https://test.test/?foo=dsadsa",
            &ClinkConfig {
                mode: Mode::Replace,
                replace_to: "your_mom".to_string(),
                sleep_duration: 150,
                params: vec!["foo".to_string()],
                exit: vec![],
                verbose: false,
            },
            &create_index(&["foo".to_string()]),
        ),
        "https://test.test/?foo=your_mom"
    );
}

#[test]
fn utils_test_all() {
    assert_eq!(swap_two_chars("0123456789", 2, 7), "0173456289");
}
