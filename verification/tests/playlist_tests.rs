use iptv_speed_tester::playlist::{parse_subscription, playlist_resolution};

fn pairs(text: &str) -> Vec<(String, String)> {
    parse_subscription(text).iter().map(|c| (c.name.clone(), c.url.clone())).collect()
}

#[test]
fn m3u_subscription() {
    let text = "#EXTM3U x-tvg-url=\"e\"\n\
                #EXTINF:-1 tvg-name=\"CCTV1\" group-title=\"央视,频道\",CCTV-1 综合\n\
                http://a/1.m3u8\n\
                #EXTINF:-1,湖南卫视\n\
                \n\
                #EXTVLCOPT:x\n\
                http://b/2.m3u8\n\
                http://orphan/3.m3u8\n";
    assert_eq!(
        pairs(text),
        vec![
            ("CCTV-1 综合".to_string(), "http://a/1.m3u8".to_string()),
            ("湖南卫视".to_string(), "http://b/2.m3u8".to_string()),
        ]
    );
}

#[test]
fn txt_subscription() {
    let text = "央视频道,#genre#\r\nCCTV1,http://a/1\r\n CCTV2 , http://a/2 \r\n,http://a/3\r\nbroken line\r\n";
    assert_eq!(
        pairs(text),
        vec![
            ("CCTV1".to_string(), "http://a/1".to_string()),
            ("CCTV2".to_string(), "http://a/2".to_string()),
        ]
    );
}

#[test]
fn master_playlist_resolution() {
    let body = "#EXTM3U\n\
                #EXT-X-STREAM-INF:BANDWIDTH=800000,RESOLUTION=1280x720\n\
                low.m3u8\n\
                #EXT-X-STREAM-INF:BANDWIDTH=5000000,RESOLUTION=1920x1080,CODECS=\"avc1\"\n\
                high.m3u8\n\
                #EXT-X-STREAM-INF:BANDWIDTH=400000,RESOLUTION=640x360\n\
                lowest.m3u8\n";
    assert_eq!(playlist_resolution(body), (1920, 1080));
    assert_eq!(playlist_resolution("#EXTM3U\nseg1.ts\n"), (0, 0));
    assert_eq!(playlist_resolution("#EXT-X-STREAM-INF:RESOLUTION=axb\n"), (0, 0));
    assert_eq!(
        playlist_resolution("#EXT-X-STREAM-INF:RESOLUTION=99999999999x5\n"),
        (u32::MAX, 5)
    );
}
