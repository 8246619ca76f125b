use clink::find_and_replace;
use clink::is_hit;
use clink::ProcessTypes;

#[test]
fn lib_naive() {
    assert_eq!(
        find_and_replace(
            &"https://test.test/?fbclid=dsadsa&utm_source=fafa&utm_campaign=fafas&utm_medium=adsa"
                .to_string(),
            &ProcessTypes::REMOVE
        ),
        "https://test.test/"
    );
    assert_eq!(
        find_and_replace(
            &"https://test.test/?fbclid=dsadsa&utm_source=fafa&utm_campaign=fafas&utm_medium=adsa"
                .to_string(),
            &ProcessTypes::YourMom
        ),
        "https://test.test/?fbclid=your_mom&utm_source=your_mom&utm_campaign=your_mom&utm_medium=your_mom"
    );
}

#[test]
fn lib_should_preserve_query() {
    assert_eq!(
        find_and_replace(&"https://test.test/?abc=abc".to_string(), &ProcessTypes::REMOVE),
        "https://test.test/?abc=abc"
    );
    assert_eq!(
        find_and_replace(&"https://test.test/?abc=abc".to_string(), &ProcessTypes::YourMom),
        "https://test.test/?abc=abc"
    );
}

#[test]
fn lib_multiple_params() {
    assert_eq!(
        find_and_replace(
            &"https://test.test/?abc=abc&fbclid=flksj".to_string(),
            &ProcessTypes::REMOVE
        ),
        "https://test.test/?abc=abc"
    );
    assert_eq!(
        find_and_replace(
            &"https://test.test/?abc=abc&fbclid=flksj".to_string(),
            &ProcessTypes::YourMom
        ),
        "https://test.test/?abc=abc&fbclid=your_mom"
    );
}

#[test]
fn lib_multiple_links() {
    assert_eq!(
        find_and_replace(
            &"https://test.test/?abc=abc&fbclid=flksj\nhttps://test.test/?abc=abc&fbclid=flksj"
                .to_string(),
            &ProcessTypes::REMOVE
        ),
        "https://test.test/?abc=abc\nhttps://test.test/?abc=abc"
    );
    assert_eq!(
        find_and_replace(
            &"https://test.test/?abc=abc&fbclid=flksj\nhttps://test.test/?abc=abc&fbclid=flksj"
                .to_string(),
            &ProcessTypes::YourMom
        ),
        "https://test.test/?abc=abc&fbclid=your_mom\nhttps://test.test/?abc=abc&fbclid=your_mom"
    );
}

#[test]
fn lib_multiple_links_and_text() {
    assert_eq!(
        find_and_replace(
            &"some text here https://test.test/?abc=abc&fbclid=flksj here \nand herehttps://test.test/?abc=abc&fbclid=flksj"
                .to_string(),
            &ProcessTypes::REMOVE
        ),
        "some text here https://test.test/?abc=abc here \nand herehttps://test.test/?abc=abc"
    );
    assert_eq!(
        find_and_replace(
            &"some text here https://test.test/?abc=abc&fbclid=flksj here \nand herehttps://test.test/?abc=abc&fbclid=flksj"
                .to_string(),
            &ProcessTypes::YourMom
        ),
        "some text here https://test.test/?abc=abc&fbclid=your_mom here \nand herehttps://test.test/?abc=abc&fbclid=your_mom"
    );
}

#[test]
fn lib_test_all() {
    assert!(is_hit("fbclid"));
    assert!(is_hit("utm_source"));
    assert!(is_hit("utm_campaign"));
    assert!(is_hit("utm_medium"));
}
