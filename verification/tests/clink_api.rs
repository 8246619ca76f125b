use clink::clink::Clink;
use clink::config::ClinkConfig;
use clink::mode::Mode;
use clink::query::swap_two_chars;

#[test]
fn naive_default() {
    let clink = Clink::new(ClinkConfig::default());

    assert_eq!(
        clink.find_and_replace(
            "https://test.test/?fbclid=dsadsa&utm_source=fafa&utm_campaign=fafas&utm_medium=adsa",
        ),
        "https://test.test/"
    );
}

#[test]
fn naive_your_mom() {
    let clink = Clink::new(ClinkConfig::new(Mode::YourMom));
    assert_eq!(
        clink.find_and_replace(
            "https://test.test/?fbclid=dsadsa&utm_source=fafa&utm_campaign=fafas&utm_medium=adsa",
        ),
        "https://test.test/?utm_source=your_mom"
    );
}

#[test]
fn naive_evil() {
    let clink = Clink::new(ClinkConfig::new(Mode::YourMom));

    assert_ne!(
        clink.find_and_replace(
            "https://test.test/?fbclid=IwAR3l6qn8TzOT254dIa7jBAM1dG3OHn3f8ZoRGsADTmqG1Zfmmko-oRhE8Qs&utm_source=IwAR3l6qn8TzOT254dIa7jBAM1dG3OHn3f8ZoRGsADTmqG1Zfmmko-oRhE8Qs&utm_campaign=IwAR3l6qn8TzOT254dIa7jBAM1dG3OHn3f8ZoRGsADTmqG1Zfmmko-oRhE8Qs&utm_medium=IwAR3l6qn8TzOT254dIa7jBAM1dG3OHn3f8ZoRGsADTmqG1Zfmmko-oRhE8Qs",
        ),
        "https://test.test/?fbclid=IwAR3l6qn8TzOT254dIa7jBAM1dG3OHn3f8ZoRGsADTmqG1Zfmmko-oRhE8Qs&utm_source=IwAR3l6qn8TzOT254dIa7jBAM1dG3OHn3f8ZoRGsADTmqG1Zfmmko-oRhE8Qs&utm_campaign=IwAR3l6qn8TzOT254dIa7jBAM1dG3OHn3f8ZoRGsADTmqG1Zfmmko-oRhE8Qs&utm_medium=IwAR3l6qn8TzOT254dIa7jBAM1dG3OHn3f8ZoRGsADTmqG1Zfmmko-oRhE8Qs"
    );
}

#[test]
fn clink_should_preserve_query() {
    let clink = Clink::new(ClinkConfig::default());
    assert_eq!(
        clink.find_and_replace("https://test.test/?abc=abc"),
        "https://test.test/?abc=abc"
    );
    let clink = Clink::new(ClinkConfig::new(Mode::YourMom));
    assert_eq!(
        clink.find_and_replace("https://test.test/?abc=abc"),
        "https://test.test/?abc=abc&utm_source=your_mom"
    );
}

#[test]
fn clink_multiple_params() {
    let clink = Clink::new(ClinkConfig::default());
    assert_eq!(
        clink.find_and_replace("https://test.test/?abc=abc&fbclid=flksj"),
        "https://test.test/?abc=abc"
    );
    let clink = Clink::new(ClinkConfig::new(Mode::YourMom));
    assert_eq!(
        clink.find_and_replace("https://test.test/?abc=abc&fbclid=flksj"),
        "https://test.test/?abc=abc&utm_source=your_mom"
    );
}

#[test]
fn clink_multiple_links() {
    let clink = Clink::new(ClinkConfig::default());
    assert_eq!(
        clink.find_and_replace(
            "https://test.test/?abc=abc&fbclid=flksj\nhttps://test.test/?abc=abc&fbclid=flksj",
        ),
        "https://test.test/?abc=abc\nhttps://test.test/?abc=abc"
    );
    let clink = Clink::new(ClinkConfig::new(Mode::YourMom));
    assert_eq!(
        clink.find_and_replace(
            "https://test.test/?abc=abc&fbclid=flksj\nhttps://test.test/?abc=abc&fbclid=flksj",
        ),
        "https://test.test/?abc=abc&utm_source=your_mom\nhttps://test.test/?abc=abc&utm_source=your_mom"
    );
}

#[test]
fn clink_multiple_links_and_text() {
    let clink = Clink::new(ClinkConfig::default());
    assert_eq!(
        clink.find_and_replace(
            "some text here https://test.test/?abc=abc&fbclid=flksj here \nand herehttps://test.test/?abc=abc&fbclid=flksj",
        ),
        "some text here https://test.test/?abc=abc here \nand herehttps://test.test/?abc=abc"
    );
    let clink = Clink::new(ClinkConfig::new(Mode::YourMom));
    assert_eq!(
        clink.find_and_replace(
            "some text here https://test.test/?abc=abc&fbclid=flksj here \nand herehttps://test.test/?abc=abc&fbclid=flksj",
        ),
        "some text here https://test.test/?abc=abc&utm_source=your_mom here \nand herehttps://test.test/?abc=abc&utm_source=your_mom"
    );
}

#[test]
fn clink_replace() {
    let clink = Clink::new(ClinkConfig::new(Mode::Replace));
    assert_eq!(
        clink.find_and_replace(
            "https://test.test/?fbclid=dsadsa&utm_source=fafa&utm_campaign=fafas&utm_medium=adsa",
        ),
        "https://test.test/?fbclid=clink&utm_source=clink&utm_campaign=clink&utm_medium=clink"
    );
}

#[test]
fn clink_custom_params() {
    let clink = Clink::new(ClinkConfig {
        mode: Mode::Replace,
        replace_to: "clink".to_string(),
        sleep_duration: 150,
        params: vec!["foo".to_string()],
        exit: vec![],
        verbose: false,
    });
    assert_eq!(
        clink.find_and_replace("https://test.test/?foo=dsadsa"),
        "https://test.test/?foo=clink"
    );
}

#[test]
fn youtube_sanitize() {
    let clink = Clink::new(ClinkConfig::default());

    assert_eq!(
        clink.find_and_replace("https://youtu.be/dQw4w9WgXcQ?si=NblIBgit-qHN7MoH"),
        "https://youtu.be/dQw4w9WgXcQ"
    );

    assert_eq!(
        clink.find_and_replace("https://www.youtu.be/dQw4w9WgXcQ?si=NblIBgit-qHN7MoH"),
        "https://www.youtu.be/dQw4w9WgXcQ"
    );

    assert_eq!(
        clink.find_and_replace("https://youtu.be/dQw4w9WgXcQ?si=NblIBgit-qHN7MoH&t=69"),
        "https://youtu.be/dQw4w9WgXcQ?t=69"
    );

    assert_eq!(
        clink.find_and_replace("https://youtu.be/dQw4w9WgXcQ?si=NblIBgit-qHN7MoH&t=69&fbclid=clid"),
        "https://youtu.be/dQw4w9WgXcQ?t=69"
    );

    assert_eq!(
        clink.find_and_replace("https://test.test/dQw4w9WgXcQ?si=NblIBgit-qHN7MoH&t=69"),
        "https://test.test/dQw4w9WgXcQ?si=NblIBgit-qHN7MoH&t=69"
    );

    let clink = Clink::new(ClinkConfig::new(Mode::Replace));
    assert_eq!(
        clink.find_and_replace(
            "https://test.test/?fbclid=dsadsa&utm_source=fafa&utm_campaign=fafas&utm_medium=adsa&si=qweasd",
        ),
        "https://test.test/?fbclid=clink&utm_source=clink&utm_campaign=clink&utm_medium=clink&si=qweasd"
    );

    assert_eq!(
        clink.find_and_replace(
            "https://youtu.be/?fbclid=dsadsa&utm_source=fafa&utm_campaign=fafas&utm_medium=adsa&si=qweasd",
        ),
        "https://youtu.be/?fbclid=clink&utm_source=clink&utm_campaign=clink&utm_medium=clink&si=clink"
    );

    let clink = Clink::new(ClinkConfig::new(Mode::YourMom));
    assert_eq!(
        clink.find_and_replace("https://test.test/?si=dsadsa"),
        "https://test.test/?si=dsadsa&utm_source=your_mom"
    );

    assert_eq!(
        clink.find_and_replace("https://youtu.be/?si=dsadsa"),
        "https://youtu.be/?utm_source=your_mom"
    );
}

#[test]
fn has_exit_url() {
    let clink = Clink::new(ClinkConfig::default());
    assert_eq!(
        clink.unwrap_exit_params(
            "https://exit.sc/?url=https%3A%2F%2Fopen.spotify.com%2Fartist%2F3tEV3J5gW5BDMrJqE3NaBy%3Fsi%3D1mLk6MZSRGuol8rgwCe_Cg"
        ),
        "https://open.spotify.com/artist/3tEV3J5gW5BDMrJqE3NaBy?si=1mLk6MZSRGuol8rgwCe_Cg"
    );

    assert_eq!(
        clink.unwrap_exit_params(
            "https://www.google.com/url?sa=t&rct=j&q=&esrc=s&source=web&cd=&cad=rja&uact=8&ved=2ahUKEwjMuu2zrreBAxUt2gIHHaDVC_gQyCl6BAgqEAM&url=https%3A%2F%2Fwww.youtube.com%2Fwatch%3Fv%3DdQw4w9WgXcQ&usg=AOvVaw0aHtehaphMhOCAkCydRLZU&opi=89978449"
        ),
        "https://www.youtube.com/watch?v=dQw4w9WgXcQ"
    )
}

#[test]
fn has_no_exit_url() {
    let clink = Clink::new(ClinkConfig::default());
    assert_eq!(
        clink.unwrap_exit_params(
            "https://open.spotify.com/artist/3tEV3J5gW5BDMrJqE3NaBy?si=1mLk6MZSRGuol8rgwCe_Cg"
        ),
        "https://open.spotify.com/artist/3tEV3J5gW5BDMrJqE3NaBy?si=1mLk6MZSRGuol8rgwCe_Cg"
    );
}

#[test]
fn has_exit_url_but_no_exit_param() {
    let clink = Clink::new(ClinkConfig::default());
    assert_eq!(
        clink.unwrap_exit_params("https://exit.sc/?foo=bar"),
        "https://exit.sc/?foo=bar"
    );
}

#[test]
fn clink_test_all() {
    assert_eq!(swap_two_chars("0123456789", 2, 7), "0173456289");
}
