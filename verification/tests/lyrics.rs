use galncelet::lyrics::{
    lookup_lyrics, lrclib_search_url, lyrics_cache_key, lyrics_from_lrclib, lyrics_from_netease, netease_lyric_url,
    netease_search_url, parse_lrc, parse_timestamp, plain_lyrics_lines, finish_fetch, LrclibItem, Lyrics, LyricsCache, LyricsLookup,
};

fn times(v: &[galncelet::lyrics::LyricLine]) -> Vec<(u64, String)> {
    v.iter().map(|l| (l.time_ms, l.text.clone())).collect()
}

#[test]
fn timestamps_read_by_fraction_length() {
    assert_eq!(parse_timestamp("01:02.50"), Some(62500));
    assert_eq!(parse_timestamp("01:02.5"), Some(62500));
    assert_eq!(parse_timestamp("01:02.505"), Some(62505));
    assert_eq!(parse_timestamp("00:10"), Some(10000));
    assert_eq!(parse_timestamp("00:10.1234"), Some(10000));
    assert_eq!(parse_timestamp("ti:Song"), None);
    assert_eq!(parse_timestamp("1:2:3"), None);
    assert_eq!(parse_timestamp("00:1x"), None);
    assert_eq!(parse_timestamp("00:10.ab"), None);
}

#[test]
fn lrc_lines_sorted_by_time() {
    let lrc = "[ti:Title]\n[00:05.00]second\n[00:01.00][00:09.00] first and last \n\n[00:03]\n[00:07.10]third\r\n";
    let lines = parse_lrc(lrc);
    assert_eq!(
        times(&lines),
        vec![
            (1000, "first and last".to_string()),
            (5000, "second".to_string()),
            (7100, "third".to_string()),
            (9000, "first and last".to_string()),
        ]
    );
}

#[test]
fn lrc_equal_times_keep_text_order() {
    let lines = parse_lrc("[00:02]b\n[00:01]a\n[00:02]c");
    assert_eq!(times(&lines), vec![(1000, "a".into()), (2000, "b".into()), (2000, "c".into())]);
}

#[test]
fn plain_lyrics_five_seconds_a_line() {
    let lines = plain_lyrics_lines("one\n\nthree\n");
    assert_eq!(times(&lines), vec![(0, "one".into()), (10000, "three".into())]);
}

#[test]
fn netease_lyrics_need_a_timed_line() {
    assert!(lyrics_from_netease("[00:01]hi", Some(1000)).is_some());
    let l = lyrics_from_netease("[00:01]hi", Some(1000)).unwrap();
    assert_eq!(l.source, "netease");
    assert_eq!(l.duration_ms, Some(1000));
    assert!(lyrics_from_netease("no tags", None).is_none());
}

#[test]
fn lrclib_prefers_synced_then_plain_then_next() {
    let items = vec![
        LrclibItem { duration_ms: Some(1), synced_lyrics: Some("nothing".into()), plain_lyrics: Some("\n".into()) },
        LrclibItem { duration_ms: Some(2), synced_lyrics: None, plain_lyrics: Some("la\nla".into()) },
        LrclibItem { duration_ms: Some(3), synced_lyrics: Some("[00:01]x".into()), plain_lyrics: None },
    ];
    let l = lyrics_from_lrclib(&items).unwrap();
    assert_eq!(l.source, "lrclib");
    assert_eq!(l.duration_ms, Some(2));
    assert_eq!(times(&l.lines), vec![(0, "la".into()), (5000, "la".into())]);
    assert!(lyrics_from_lrclib(&Vec::new()).is_none());
}

#[test]
fn query_addresses_are_percent_encoded() {
    assert_eq!(
        netease_search_url("Hello World", "A&B"),
        "https://music.163.com/api/search/get?s=Hello%20World%20A%26B&type=1&limit=1"
    );
    assert_eq!(netease_lyric_url(42), "https://music.163.com/api/song/lyric?id=42&lv=1&kv=1&tv=-1");
    assert_eq!(netease_lyric_url(-7), "https://music.163.com/api/song/lyric?id=-7&lv=1&kv=1&tv=-1");
    assert_eq!(
        lrclib_search_url("晴天", "周杰伦", "a-b_c.d~"),
        "https://lrclib.net/api/search?track_name=%E6%99%B4%E5%A4%A9&artist_name=%E5%91%A8%E6%9D%B0%E4%BC%A6&album_name=a-b_c.d~"
    );
}

#[test]
fn cache_gives_back_what_was_stored() {
    let mut cache = LyricsCache::new();
    assert_eq!(lyrics_cache_key("Song", "Artist"), "Song-Artist");
    match lookup_lyrics(&cache, "", "x") {
        LyricsLookup::NoTitle => {}
        other => panic!("{other:?}"),
    }
    let key = match lookup_lyrics(&cache, "Song", "Artist") {
        LyricsLookup::Fetch(k) => k,
        other => panic!("{other:?}"),
    };
    cache.insert(key, lyrics_from_netease("[00:01]hi", None));
    match lookup_lyrics(&cache, "Song", "Artist") {
        LyricsLookup::Cached(Some(l)) => assert_eq!(l.lines[0].text, "hi"),
        other => panic!("{other:?}"),
    }
    cache.insert("Quiet-Nobody".to_string(), None);
    assert!(matches!(cache.get("Quiet-Nobody"), Some(None)));
    assert!(cache.get("Other-Key").is_none());
}

fn source_only(source: &str) -> Lyrics {
    Lyrics { lines: Vec::new(), source: source.to_string(), duration_ms: None }
}

#[test]
fn netease_first_then_lrclib_and_cached() {
    let mut c = LyricsCache::new();
    let r = finish_fetch(&mut c, "t-a".to_string(), Some(source_only("netease")), Some(source_only("lrclib")));
    assert_eq!(r.unwrap().source, "netease");
    let r = finish_fetch(&mut c, "u-b".to_string(), None, Some(source_only("lrclib")));
    assert_eq!(r.unwrap().source, "lrclib");
    assert!(finish_fetch(&mut c, "v-c".to_string(), None, None).is_none());
    assert_eq!(c.get("t-a").unwrap().unwrap().source, "netease");
    assert_eq!(c.get("u-b").unwrap().unwrap().source, "lrclib");
    assert!(c.get("v-c").unwrap().is_none());
    assert!(c.get("w-d").is_none());
}

#[test]
fn last_insert_wins() {
    let mut c = LyricsCache::new();
    c.insert("k".to_string(), Some(source_only("one")));
    c.insert("j".to_string(), None);
    c.insert("k".to_string(), Some(source_only("two")));
    assert_eq!(c.get("k").unwrap().unwrap().source, "two");
    assert!(c.get("j").unwrap().is_none());
}
