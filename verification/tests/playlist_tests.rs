use soundprint::errors::PlaylistError;
use soundprint::playlist::{find_uri, resolve_master_playlist, resolve_media_playlist};

fn master_text() -> Vec<u8> {
    let text = "#EXTM3U\n\
        #EXT-X-STREAM-INF:BANDWIDTH=150000,RESOLUTION=416x234\n\
        http://example.com/low/index.m3u8\n\
        #EXT-X-STREAM-INF:BANDWIDTH=550000,RESOLUTION=640x360\n\
        http://example.com/high/index.m3u8\n";
    text.as_bytes().to_vec()
}

fn media_text() -> Vec<u8> {
    let text = "#EXTM3U\n\
        #EXT-X-VERSION:3\n\
        #EXT-X-TARGETDURATION:10\n\
        #EXT-X-MEDIA-SEQUENCE:0\n\
        #EXTINF:10.0,\n\
        seg0.ts\n\
        #EXTINF:10.0,\n\
        seg1.ts\n\
        #EXT-X-ENDLIST\n";
    text.as_bytes().to_vec()
}

#[test]
fn test_resolve_master_playlist_picks_first_variant() {
    let uri = resolve_master_playlist(&master_text()).unwrap();
    assert_eq!(uri, "http://example.com/low/index.m3u8");
}

#[test]
fn test_resolve_master_playlist_rejects_media_text() {
    let r = resolve_master_playlist(&media_text());
    assert!(matches!(r, Err(PlaylistError::WrongFormat)));
}

#[test]
fn test_find_uri_skips_empty_variants() {
    let variants = vec![String::new(), String::new(), "http://example.com/a".to_string()];
    assert_eq!(find_uri(&variants).unwrap(), "http://example.com/a");
}

#[test]
fn test_find_uri_without_usable_variant() {
    let r = find_uri(&vec![String::new(), String::new()]);
    assert!(matches!(r, Err(PlaylistError::NoUsableVariant)));
    let r = find_uri(&Vec::new());
    assert!(matches!(r, Err(PlaylistError::NoUsableVariant)));
}

#[test]
fn test_resolve_media_playlist_lists_segments() {
    let segments = resolve_media_playlist(&media_text()).unwrap();
    assert_eq!(segments, vec!["seg0.ts".to_string(), "seg1.ts".to_string()]);
}

#[test]
fn test_resolve_media_playlist_rejects_master_text() {
    let r = resolve_media_playlist(&master_text());
    assert!(matches!(r, Err(PlaylistError::WrongFormat)));
}
