use soccer::Status;
use soccer::construct_url;
use soccer::status_of;

#[test]
fn status_mapping() {
    assert_eq!(status_of(&"Beendet".to_string()), Status::Over);
    assert_eq!(status_of(&"Live".to_string()), Status::Live);
    assert_eq!(status_of(&"45.".to_string()), Status::Upcoming);
    assert_eq!(status_of(&"".to_string()), Status::Upcoming);
}

#[test]
fn url_keeps_everything_before_the_last_segment() {
    let r = construct_url(
        "https://example.org",
        "/soccer/league/match-4711/info".to_string(),
        "/lineup",
    );
    assert_eq!(r, "https://example.org/soccer/league/match-4711/lineup");
}

#[test]
fn url_with_single_slash() {
    let r = construct_url("", "/page".to_string(), "/detail");
    assert_eq!(r, "/detail");
}
