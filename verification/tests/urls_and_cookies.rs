use gooey::cookies::{
    build_cookie_header, extract_hidden_input_value, jar_after_post, merge_set_cookie_values, parse_set_cookie_pair,
};
use gooey::post::{interpret_post_reply, prepare_post, PostAttemptResult};
use gooey::strmap::StrMap;
use gooey::urls::{
    board_dir_from_url, dat_cache_file_name, dat_url, extract_displayed_urls, image_cache_extension,
    is_image_preview_url, is_url_like, normalize_url, parse_5ch_io_thread_url, parse_board_server,
    split_body_tokens, subject_url, AppAssets, BodyTokenKind,
};

#[test]
fn subject_url_adds_file() {
    assert_eq!(subject_url("https://a.5ch.io/news/"), "https://a.5ch.io/news/subject.txt");
    assert_eq!(subject_url("https://a.5ch.io/news"), "https://a.5ch.io/news/subject.txt");
}

#[test]
fn dat_url_adds_dir_and_extension() {
    assert_eq!(dat_url("https://a.5ch.io/news/", "123.dat"), "https://a.5ch.io/news/dat/123.dat");
    assert_eq!(dat_url("https://a.5ch.io/news", "123"), "https://a.5ch.io/news/dat/123.dat");
}

#[test]
fn board_dir_is_sanitized() {
    assert_eq!(board_dir_from_url("https://a.5ch.io/news/"), "news");
    assert_eq!(board_dir_from_url("https://a.5ch.io//we ird.x/"), "we_ird_x");
    assert_eq!(board_dir_from_url("https://a.5ch.io"), "unknown");
    assert_eq!(board_dir_from_url("a.5ch.io/b-c_d"), "b-c_d");
}

#[test]
fn dat_cache_name_is_sanitized() {
    assert_eq!(dat_cache_file_name("123.dat"), "123.dat");
    assert_eq!(dat_cache_file_name("a/b:c"), "a_b_c");
}

#[test]
fn board_server_parts() {
    assert_eq!(
        parse_board_server("https://a.5ch.io/news/"),
        Ok(("a.5ch.io".to_string(), "news".to_string()))
    );
    assert_eq!(parse_board_server("https://"), Err("投稿先サーバーを判定できません".to_string()));
    assert_eq!(parse_board_server("https://a.5ch.io/"), Err("投稿先板を判定できません".to_string()));
}

#[test]
fn url_like_tokens() {
    assert!(is_url_like("https://example.com"));
    assert!(is_url_like("HTTP://EXAMPLE.COM"));
    assert!(is_url_like("ttps://example.com"));
    assert!(is_url_like("i.example.net/path"));
    assert!(!is_url_like("hello"));
    assert!(!is_url_like("a_b.c/d"));
    assert!(!is_url_like("abc/d.e"));
}

#[test]
fn urls_are_normalized() {
    assert_eq!(normalize_url(" ttp://x.y/z "), "http://x.y/z");
    assert_eq!(normalize_url("ttps://x.y/z"), "https://x.y/z");
    assert_eq!(normalize_url("x.y/z"), "https://x.y/z");
    assert_eq!(normalize_url("https://x.y/z"), "https://x.y/z");
    assert_eq!(normalize_url("plain"), "plain");
}

#[test]
fn body_tokens_are_classified() {
    let toks = split_body_tokens("see https://x.y/z and >>12 now");
    assert_eq!(toks.len(), 5);
    assert!(matches!(toks[0].0, BodyTokenKind::Plain));
    assert_eq!(toks[0].1, "see ");
    assert!(matches!(toks[1].0, BodyTokenKind::Url));
    assert_eq!(toks[1].1, "https://x.y/z ");
    assert!(matches!(toks[2].0, BodyTokenKind::Plain));
    assert_eq!(toks[2].1, "and ");
    assert!(matches!(toks[3].0, BodyTokenKind::Anchor));
    assert_eq!(toks[3].1, ">>12 ");
    assert!(matches!(toks[4].0, BodyTokenKind::Plain));
    assert_eq!(toks[4].1, "now");
    let toks2 = split_body_tokens(">>1a");
    assert_eq!(toks2.len(), 1);
    assert!(matches!(toks2[0].0, BodyTokenKind::Plain));
}

#[test]
fn thread_urls_of_5ch() {
    assert_eq!(
        parse_5ch_io_thread_url("https://Mi.5ch.io/test/read.cgi/news/1700000000/?x=1#a"),
        Some(("https://mi.5ch.io/news/".to_string(), "1700000000.dat".to_string()))
    );
    assert_eq!(
        parse_5ch_io_thread_url("ttps://5ch.io/test/read.cgi/b/12.dat"),
        Some(("https://5ch.io/b/".to_string(), "12.dat".to_string()))
    );
    assert_eq!(parse_5ch_io_thread_url("https://example.com/test/read.cgi/b/1/"), None);
    assert_eq!(parse_5ch_io_thread_url("https://a.5ch.io/test/read.cgi/b"), None);
    assert_eq!(parse_5ch_io_thread_url("https://a.5ch.io/x/read.cgi/b/1"), None);
}

#[test]
fn displayed_urls_are_distinct_and_normalized() {
    let urls = extract_displayed_urls("a ttp://x.y/z b\nhttp://x.y/z x.y/w\nttp://x.y/z");
    assert_eq!(urls, vec!["http://x.y/z".to_string(), "https://x.y/w".to_string()]);
}

#[test]
fn image_urls() {
    assert!(is_image_preview_url("https://x.y/a.JPG?size=2"));
    assert!(is_image_preview_url("ttps://x.y/a.webp#frag"));
    assert!(!is_image_preview_url("https://x.y/a.txt"));
    assert_eq!(image_cache_extension("https://x.y/A.JPEG"), "jpeg");
    assert_eq!(image_cache_extension("https://x.y/a.png?q"), "png");
    assert_eq!(image_cache_extension("https://x.y/a"), "img");
}

#[test]
fn asset_paths() {
    let assets = AppAssets::new("/app".to_string());
    assert_eq!(assets.resolve_path("icons/a.svg"), Some("/app/icons/a.svg".to_string()));
    assert_eq!(assets.resolve_path(""), None);
    assert_eq!(assets.resolve_path("../etc"), None);
    assert_eq!(assets.resolve_path("/abs"), None);
    assert_eq!(assets.resolve_path("\\win"), None);
    let rooted = AppAssets::new("/app/".to_string());
    assert_eq!(rooted.resolve_path("x"), Some("/app/x".to_string()));
    assert_eq!(assets.resolve_path("img/a:"), Some("/app/img/a:".to_string()));
    assert_eq!(assets.resolve_path("a/b:c.png"), Some("/app/a/b:c.png".to_string()));
    let empty = AppAssets::new(String::new());
    assert_eq!(empty.resolve_path("x/y"), Some("x/y".to_string()));
}

#[test]
fn set_cookie_pairs() {
    assert_eq!(
        parse_set_cookie_pair(" name = value ; Path=/"),
        Some(("name".to_string(), "value".to_string()))
    );
    assert_eq!(parse_set_cookie_pair("novalue"), None);
    assert_eq!(parse_set_cookie_pair(" =x"), None);
    assert_eq!(parse_set_cookie_pair("a=b=c"), Some(("a".to_string(), "b=c".to_string())));
}

#[test]
fn cookies_merge_and_header() {
    let mut jar: StrMap<String> = StrMap::new();
    assert_eq!(build_cookie_header(&jar), None);
    let values = vec![
        "b=2; Path=/".to_string(),
        "tako=x".to_string(),
        "Ban=y".to_string(),
        "__CFDUID=z".to_string(),
        "a=1".to_string(),
        "b=3".to_string(),
        "junk".to_string(),
    ];
    merge_set_cookie_values(&mut jar, &values);
    assert_eq!(jar.len(), 2);
    assert_eq!(build_cookie_header(&jar), Some("a=1; b=3".to_string()));
}

#[test]
fn jar_kept_after_post_only_when_cookies_set() {
    let mut empty_reply: StrMap<String> = StrMap::new();
    merge_set_cookie_values(&mut empty_reply, &["a=1".to_string()]);
    assert!(jar_after_post(empty_reply, &[]).is_none());
    let mut jar: StrMap<String> = StrMap::new();
    merge_set_cookie_values(&mut jar, &["a=1".to_string()]);
    let merged = jar_after_post(jar, &["b=2; Path=/".to_string(), "a=5".to_string()]).unwrap();
    assert_eq!(build_cookie_header(&merged), Some("a=5; b=2".to_string()));
}

#[test]
fn hidden_inputs() {
    let html = "<input type=hidden name=\"feature\" value=\"confirmed:abc\"><input name='time' value='123'><input name=x value=y z>";
    assert_eq!(extract_hidden_input_value(html, "feature"), Some("confirmed:abc".to_string()));
    assert_eq!(extract_hidden_input_value(html, "time"), Some("123".to_string()));
    assert_eq!(extract_hidden_input_value(html, "x"), Some("y".to_string()));
    assert_eq!(extract_hidden_input_value(html, "missing"), None);
}

#[test]
fn post_request_is_prepared() {
    let req = prepare_post("https://a.5ch.io/news/", "1700000000.dat", "nm", "  ", "body", true, None, 1000)
        .ok()
        .unwrap();
    assert_eq!(req.url, "https://a.5ch.io/test/bbs.cgi");
    assert_eq!(req.referer, req.url);
    assert_eq!(req.cookie_scope, "a.5ch.io/news");
    let form: Vec<(&str, &str)> = req.form.iter().map(|(k, v)| (k.as_str(), v.as_str())).collect();
    assert_eq!(
        form,
        vec![
            ("submit", "書き込む"),
            ("time", "940"),
            ("oekaki_thread1", ""),
            ("bbs", "news"),
            ("key", "1700000000"),
            ("FROM", "nm"),
            ("mail", "sage"),
            ("MESSAGE", "body"),
        ]
    );
}

#[test]
fn post_request_with_confirmation() {
    let req = prepare_post(
        "https://a.5ch.io/news/",
        "17.dat",
        "",
        " m ",
        "b",
        true,
        Some(("confirmed:f".to_string(), "77".to_string())),
        10,
    )
    .ok()
    .unwrap();
    let form: Vec<(&str, &str)> = req.form.iter().map(|(k, v)| (k.as_str(), v.as_str())).collect();
    assert_eq!(
        form,
        vec![
            ("oekaki_thread1", ""),
            ("bbs", "news"),
            ("key", "17"),
            ("FROM", ""),
            ("mail", "m"),
            ("MESSAGE", "b"),
            ("feature", "confirmed:f"),
            ("time", "77"),
            ("submit", "上記全てを承諾して書き込む"),
        ]
    );
}

#[test]
fn post_request_errors() {
    assert_eq!(
        prepare_post("https://a.5ch.io/news/", " .dat", "", "", "", false, None, 0).err(),
        Some("スレッドキーを判定できません".to_string())
    );
    assert_eq!(
        prepare_post("https://", "1.dat", "", "", "", false, None, 0).err(),
        Some("投稿先サーバーを判定できません".to_string())
    );
    let early = prepare_post("https://a.5ch.io/b/", "1.dat", "", "", "", false, None, 5).ok().unwrap();
    assert_eq!(early.form[1].1, "1");
}

#[test]
fn post_replies() {
    let done = encoding_rs::SHIFT_JIS.encode("<html>書きこみが終わりました</html>").0.into_owned();
    assert!(matches!(interpret_post_reply(&done), Ok(PostAttemptResult::Posted)));
    let done2 = encoding_rs::SHIFT_JIS.encode("書きこみました").0.into_owned();
    assert!(matches!(interpret_post_reply(&done2), Ok(PostAttemptResult::Posted)));
    match interpret_post_reply(b"<input name=\"feature\" value=\"confirmed:q\"><input name=\"time\" value=\"9\">") {
        Ok(PostAttemptResult::NeedConfirm { feature, time }) => {
            assert_eq!(feature, "confirmed:q");
            assert_eq!(time, "9");
        }
        _ => panic!("expected a confirmation"),
    }
    assert_eq!(
        interpret_post_reply(b"<input name=\"feature\" value=\"other\"><input name=\"time\" value=\"9\">").err(),
        Some("投稿に失敗しました。本文かCookie、または投稿条件を確認してください".to_string())
    );
}
