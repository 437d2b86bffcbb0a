use audio_hub::catalog::{Track, TrackCatalog};
use audio_hub::service::{HubService, StreamError};
use audio_hub::source::MemorySource;

fn track(id: &str, path: &str) -> Track {
    Track { track_id: String::from(id), track_path: String::from(path) }
}

fn catalog() -> TrackCatalog {
    let mut c = TrackCatalog::new();
    assert!(c.insert(track("0", "/music/a.mp3")));
    assert!(c.insert(track("1", "/music/b.mp3")));
    c
}

#[test]
fn known_and_unknown_ids() {
    let service = HubService::new(catalog());
    for ids in [vec![String::from("1"), String::from("nope")], vec![String::from("nope"), String::from("1")]] {
        let list = service.get_track_list(&ids);
        assert_eq!(list.len(), 1);
        assert_eq!(list[0].track_id, "1");
        assert_eq!(list[0].track_path, "/music/b.mp3");
    }
}

#[test]
fn track_list_keeps_request_order() {
    let service = HubService::new(catalog());
    let list = service.get_track_list(&vec![String::from("1"), String::from("0")]);
    let ids: Vec<&str> = list.iter().map(|t| t.track_id.as_str()).collect();
    assert_eq!(ids, vec!["1", "0"]);
}

#[test]
fn empty_request_gives_no_tracks() {
    let service = HubService::new(catalog());
    assert!(service.get_track_list(&Vec::new()).is_empty());
}

#[test]
fn duplicate_id_is_not_inserted() {
    let mut c = catalog();
    assert!(!c.insert(track("0", "/elsewhere.mp3")));
    assert_eq!(c.len(), 2);
    assert_eq!(c.resolve(&String::from("0")), Some(String::from("/music/a.mp3")));
}

#[test]
fn unknown_track_is_not_found() {
    let service = HubService::new(catalog());
    assert!(matches!(service.resolve_track(&String::from("9")), Err(StreamError::NotFound)));
    assert_eq!(service.resolve_track(&String::from("0")).ok(), Some(String::from("/music/a.mp3")));
}

#[test]
fn unopenable_source_is_unavailable() {
    let service = HubService::with_limits(catalog(), 4, 2);
    let opened: Result<MemorySource, String> = Err(String::from("permission denied"));
    match service.stream_audio(opened) {
        Err(StreamError::SourceUnavailable(cause)) => assert_eq!(cause, "permission denied"),
        _ => panic!("expected SourceUnavailable"),
    }
}

#[test]
fn opened_source_starts_a_session() {
    let service = HubService::with_limits(catalog(), 4, 2);
    match service.stream_audio(Ok(MemorySource::new(vec![1, 2, 3, 4, 5]))) {
        Ok((session, channel)) => {
            assert!(session.is_producing());
            assert_eq!(channel.capacity(), 2);
            assert_eq!(channel.len(), 0);
        }
        Err(_) => panic!("expected a session"),
    }
}

#[test]
fn repeated_id_is_listed_once() {
    let service = HubService::new(catalog());
    let ids = vec![String::from("0"), String::from("nope"), String::from("0"), String::from("1")];
    let list = service.get_track_list(&ids);
    let got: Vec<(&str, &str)> = list.iter().map(|t| (t.track_id.as_str(), t.track_path.as_str())).collect();
    assert_eq!(got, vec![("0", "/music/a.mp3"), ("1", "/music/b.mp3")]);
}
