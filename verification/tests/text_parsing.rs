use gooey::boards::{
    created_at_text, dat_rows_from_download, format_thread_created_at, merge_dat_fetch, parse_dat_content,
    parse_dat_unix_seconds, parse_subject_content, range_reply_action, subject_rows_from_download,
    DatMerge, DatRangeFetchResult, RangeAction, RangeReply,
};
use gooey::html::{
    decode_basic_html_entities, decode_inline_html_text, decode_numeric_char_references,
    normalize_dat_body_html, parse_response_name_html, response_name_plain_text,
    split_response_name_tokens, strip_anchor_tags,
};

#[test]
fn basic_entities_are_decoded_in_order() {
    assert_eq!(decode_basic_html_entities("a &gt; b &lt; c"), "a > b < c");
    assert_eq!(decode_basic_html_entities("&quot;x&quot; &#39;y&#39;"), "\"x\" 'y'");
    // `&amp;` is decoded after `&lt;`, so `&amp;lt;` becomes `&lt;`
    assert_eq!(decode_basic_html_entities("&amp;lt;"), "&lt;");
    assert_eq!(decode_basic_html_entities("plain"), "plain");
}

#[test]
fn numeric_references_decimal_and_hex() {
    assert_eq!(decode_numeric_char_references("&#65;&#x42;&#X43;"), "ABC");
    assert_eq!(decode_numeric_char_references("&#12354;"), "あ");
    assert_eq!(decode_numeric_char_references("no refs"), "no refs");
}

#[test]
fn numeric_references_invalid_are_kept() {
    assert_eq!(decode_numeric_char_references("&#zz;"), "&#zz;");
    assert_eq!(decode_numeric_char_references("&#65"), "&#65");
    assert_eq!(decode_numeric_char_references("&#xD800;"), "&#xD800;");
    assert_eq!(decode_numeric_char_references("a&#;b"), "a&#;b");
}

#[test]
fn inline_text_decodes_both_kinds() {
    assert_eq!(decode_inline_html_text("&amp;#65;"), "A");
    assert_eq!(decode_inline_html_text("&lt;&#x41;&gt;"), "<A>");
}

#[test]
fn response_name_starts_bold_and_switches() {
    let segs = parse_response_name_html("名無し</b>(ﾜｯﾁｮｲ)<b>さん");
    assert_eq!(
        segs,
        vec![
            (true, "名無し".to_string()),
            (false, "(ﾜｯﾁｮｲ)".to_string()),
            (true, "さん".to_string())
        ]
    );
    assert_eq!(response_name_plain_text("名無し</b>(ﾜｯﾁｮｲ)<b>さん"), "名無し(ﾜｯﾁｮｲ)さん");
}

#[test]
fn response_name_empty_segments_dropped() {
    assert_eq!(parse_response_name_html("</b>x"), vec![(false, "x".to_string())]);
    assert_eq!(parse_response_name_html(""), Vec::<(bool, String)>::new());
    assert_eq!(parse_response_name_html("&gt;&gt;1"), vec![(true, ">>1".to_string())]);
}

#[test]
fn response_name_tokens_split_after_whitespace() {
    let toks = split_response_name_tokens("a b</b>c d");
    assert_eq!(
        toks,
        vec![
            (true, "a ".to_string()),
            (true, "b".to_string()),
            (false, "c ".to_string()),
            (false, "d".to_string())
        ]
    );
}

#[test]
fn anchors_are_unwrapped() {
    assert_eq!(
        strip_anchor_tags("see <a href=\"../test/read.cgi/x/1/2\">&gt;&gt;2</a> ok"),
        "see &gt;&gt;2 ok"
    );
    assert_eq!(strip_anchor_tags("broken <a href"), "broken <a href");
    assert_eq!(strip_anchor_tags("open <a x>rest"), "open rest");
}

#[test]
fn dat_body_is_normalized() {
    assert_eq!(
        normalize_dat_body_html("one<br>two<br />three<br/><a href=x>&gt;&gt;1</a> &#65;"),
        "one\ntwo\nthree\n>>1 A"
    );
}

#[test]
fn subject_lines_are_parsed() {
    let rows = parse_subject_content("1700000000.dat<>Title &amp; more (123)\nbad line\n1600000000.dat<>No count\n");
    assert_eq!(rows.len(), 2);
    assert_eq!(rows[0].dat_file, "1700000000.dat");
    assert_eq!(rows[0].title, "Title & more");
    assert_eq!(rows[0].response_count, 123);
    assert_eq!(rows[1].dat_file, "1600000000.dat");
    assert_eq!(rows[1].title, "No count");
    assert_eq!(rows[1].response_count, 0);
}

#[test]
fn subject_count_that_is_not_a_number_is_zero() {
    let rows = parse_subject_content("1.dat<>T (abc)");
    assert_eq!(rows.len(), 1);
    assert_eq!(rows[0].title, "T");
    assert_eq!(rows[0].response_count, 0);
}

#[test]
fn subject_download_decodes_shift_jis() {
    // "あ" in Shift_JIS is 0x82 0xA0
    let raw: Vec<u8> = vec![b'1', b'.', b'd', b'a', b't', b'<', b'>', 0x82, 0xA0, b' ', b'(', b'5', b')'];
    let rows = subject_rows_from_download(&raw).unwrap();
    assert_eq!(rows.len(), 1);
    assert_eq!(rows[0].title, "あ");
    assert_eq!(rows[0].response_count, 5);
}

#[test]
fn subject_download_without_rows_fails() {
    let err = subject_rows_from_download(b"nothing here").err().unwrap();
    assert_eq!(err, "subject.txt を解析できませんでした");
}

#[test]
fn dat_key_seconds() {
    assert_eq!(parse_dat_unix_seconds("1700000000.dat"), Some(1700000000));
    assert_eq!(parse_dat_unix_seconds(" 42 "), Some(42));
    assert_eq!(parse_dat_unix_seconds("0.dat"), None);
    assert_eq!(parse_dat_unix_seconds("-5.dat"), None);
    assert_eq!(parse_dat_unix_seconds("abc.dat"), None);
}

#[test]
fn created_at_without_time_is_dash() {
    assert_eq!(format_thread_created_at("abc.dat"), "-");
    let shown = format_thread_created_at("1700000000.dat");
    assert_eq!(shown.len(), "2023/11/14 22:13".len());
    // 2023/11/14 22:13 UTC, moved by a local offset of less than a day
    assert!(["2023/11/13", "2023/11/14", "2023/11/15"].contains(&&shown[..10]));
    assert!(shown.ends_with(":13") || shown.ends_with(":43") || shown.ends_with(":58") || shown.ends_with(":28"));
}

#[test]
fn created_at_text_falls_back_to_dash() {
    assert_eq!(created_at_text(Some("2024/01/02 03:04".to_string())), "2024/01/02 03:04");
    assert_eq!(created_at_text(None), "-");
}

#[test]
fn dat_lines_are_parsed() {
    let content = "名無し<>sage<>2024/01/01(月) 00:00:00.00 ID:abc123<> 本文<br>二行目 <>タイトル\n二<><>2024/01/02<>x<>\n";
    let rows = parse_dat_content(content);
    assert_eq!(rows.len(), 2);
    assert_eq!(rows[0].number, 1);
    assert_eq!(rows[0].name, "名無し");
    assert_eq!(rows[0].timestamp, "2024/01/01(月) 00:00:00.00");
    assert_eq!(rows[0].id, "ID:abc123");
    assert_eq!(rows[0].body, "本文\n二行目");
    assert_eq!(rows[1].number, 2);
    assert_eq!(rows[1].id, "ID:----");
    assert_eq!(rows[1].timestamp, "2024/01/02");
}

#[test]
fn dat_download_without_rows_fails() {
    assert_eq!(dat_rows_from_download(b"").err().unwrap(), "dat を解析できませんでした");
    assert_eq!(dat_rows_from_download(b"a<>b<>c<>d<>").unwrap().len(), 1);
}

#[test]
fn dat_merge_cases() {
    let cached = b"line1\n".to_vec();
    match merge_dat_fetch(cached.clone(), DatRangeFetchResult::Append(b"\nline2".to_vec())) {
        DatMerge::Bytes(b) => assert_eq!(b, b"line1\n\nline2".to_vec()),
        DatMerge::NeedFullDownload => panic!("expected bytes"),
    }
    assert!(matches!(
        merge_dat_fetch(cached.clone(), DatRangeFetchResult::Append(b"x".to_vec())),
        DatMerge::NeedFullDownload
    ));
    match merge_dat_fetch(cached.clone(), DatRangeFetchResult::Append(Vec::new())) {
        DatMerge::Bytes(b) => assert_eq!(b, cached),
        DatMerge::NeedFullDownload => panic!("expected bytes"),
    }
    match merge_dat_fetch(cached.clone(), DatRangeFetchResult::NotModified) {
        DatMerge::Bytes(b) => assert_eq!(b, cached),
        DatMerge::NeedFullDownload => panic!("expected bytes"),
    }
    match merge_dat_fetch(cached, DatRangeFetchResult::Full(b"all".to_vec())) {
        DatMerge::Bytes(b) => assert_eq!(b, b"all".to_vec()),
        DatMerge::NeedFullDownload => panic!("expected bytes"),
    }
}

#[test]
fn range_reply_actions() {
    assert_eq!(range_reply_action(&RangeReply::Status(200)), RangeAction::UseFull);
    assert_eq!(range_reply_action(&RangeReply::Status(206)), RangeAction::UseAppend);
    assert_eq!(range_reply_action(&RangeReply::Status(204)), RangeAction::DownloadFull);
    assert_eq!(range_reply_action(&RangeReply::ErrorStatus(302)), RangeAction::NotModified);
    assert_eq!(range_reply_action(&RangeReply::ErrorStatus(416)), RangeAction::NotModified);
    assert_eq!(range_reply_action(&RangeReply::ErrorStatus(500)), RangeAction::DownloadFull);
    assert_eq!(range_reply_action(&RangeReply::Transport), RangeAction::Fail);
}
