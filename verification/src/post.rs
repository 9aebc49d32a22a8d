//! Posting to a thread: the request that `bbs.cgi` is sent, and the reading
//! of its reply (posted, or a confirmation page to pass).

use vstd::prelude::*;
use crate::textseq::{
    chars_of, contains, contains_exec, decimal, decimal_exec, ends_with, ends_with_exec,
    extend_all, slice_vec, starts_with, starts_with_exec, string_of, trim, trim_bounds,
};
use crate::urls::{board_parts, lit_dat_ext, parse_board_server};
use crate::boards::{decode_5ch_bytes, shift_jis_text};
use crate::cookies::{extract_hidden_input_value, hidden_value, opt_str_view};

verus! {

/// What a post attempt came to.
pub enum PostAttemptResult {
    Posted,
    /// The server asks to confirm; the next attempt sends these back.
    NeedConfirm { feature: String, time: String },
}

/// A post ready to send: where, the cookie jar it uses, and its form.
pub struct PostRequest {
    pub url: String,
    pub referer: String,
    pub cookie_scope: String,
    pub form: Vec<(String, String)>,
}

pub open spec fn msg_no_key() -> Seq<char> {
    "スレッドキーを判定できません"@
}

pub open spec fn lit_submit() -> Seq<char> {
    "submit"@
}

pub open spec fn lit_submit_label() -> Seq<char> {
    "書き込む"@
}

pub open spec fn lit_confirm_label() -> Seq<char> {
    "上記全てを承諾して書き込む"@
}

/// The thread key of a `.dat` name: one `.dat` suffix dropped, trimmed.
pub open spec fn post_key(dat: Seq<char>) -> Seq<char> {
    trim(
        if ends_with(dat, lit_dat_ext()) {
            dat.take(dat.len() - 4)
        } else {
            dat
        },
    )
}

/// The `time` sent with a first attempt: a minute before now, at least 1.
pub open spec fn post_time(now: int) -> Seq<char> {
    decimal(if now - 60 >= 1 {
        (now - 60) as nat
    } else {
        1
    })
}

/// The mail field: trimmed, and `sage` when it is empty and sage is asked.
pub open spec fn post_mail(mail: Seq<char>, use_sage: bool) -> Seq<char> {
    if use_sage && trim(mail).len() == 0 {
        "sage"@
    } else {
        trim(mail)
    }
}

/// The form of a post.  A first attempt sends `submit`, `time`,
/// `oekaki_thread1`, `bbs`, `key`, `FROM`, `mail`, `MESSAGE`; an attempt
/// after a confirmation page drops `submit` and `time` and appends
/// `feature`, the page's `time` and the confirming `submit`.
pub open spec fn post_form(
    board: Seq<char>,
    key: Seq<char>,
    name: Seq<char>,
    mail: Seq<char>,
    message: Seq<char>,
    use_sage: bool,
    pending: Option<(Seq<char>, Seq<char>)>,
    now: int,
) -> Seq<(Seq<char>, Seq<char>)> {
    let common = seq![
        ("oekaki_thread1"@, seq![]),
        ("bbs"@, board),
        ("key"@, key),
        ("FROM"@, name),
        ("mail"@, post_mail(mail, use_sage)),
        ("MESSAGE"@, message),
    ];
    match pending {
        None => seq![(lit_submit(), lit_submit_label()), ("time"@, post_time(now))] + common,
        Some((feature, time)) => common + seq![
            ("feature"@, feature),
            ("time"@, time),
            (lit_submit(), lit_confirm_label()),
        ],
    }
}

pub open spec fn pairs_view(v: Seq<(String, String)>) -> Seq<(Seq<char>, Seq<char>)> {
    v.map_values(|p: (String, String)| (p.0@, p.1@))
}

pub open spec fn opt_pair_view(o: Option<(String, String)>) -> Option<(Seq<char>, Seq<char>)> {
    match o {
        Some((a, b)) => Some((a@, b@)),
        None => None,
    }
}

fn text(s: &str) -> (r: String)
    ensures
        r@ == s@,
{
    s.to_owned()
}

fn push_pair(v: &mut Vec<(String, String)>, k: String, x: String)
    ensures
        pairs_view(final(v)@) == pairs_view(old(v)@).push((k@, x@)),
{
    v.push((k, x));
    assert(pairs_view(final(v)@) =~= pairs_view(old(v)@).push((k@, x@)));
}

/// The request for a post to thread `dat_file` of `board_url`.  It fails
/// when the board address has no server or no board, or the thread key is
/// empty.  `now_unix` is the current unix time.
pub fn prepare_post(
    board_url: &str,
    dat_file: &str,
    name: &str,
    mail: &str,
    message: &str,
    use_sage: bool,
    pending_confirm: Option<(String, String)>,
    now_unix: i64,
) -> (r: Result<PostRequest, String>)
    requires
        now_unix >= i64::MIN + 60,
    ensures
        board_parts(board_url@).len() == 0 ==> (r matches Err(e) && e@
            == crate::urls::msg_no_server()),
        board_parts(board_url@).len() == 1 ==> (r matches Err(e) && e@
            == crate::urls::msg_no_board()),
        board_parts(board_url@).len() >= 2 && post_key(dat_file@).len() == 0 ==> (r matches Err(e)
            && e@ == msg_no_key()),
        board_parts(board_url@).len() >= 2 && post_key(dat_file@).len() > 0 <==> r is Ok,
        r matches Ok(req) ==> {
            let server = board_parts(board_url@)[0];
            let board = board_parts(board_url@)[1];
            &&& req.url@ == "https://"@ + server + "/test/bbs.cgi"@
            &&& req.referer@ == req.url@
            &&& req.cookie_scope@ == server + seq!['/'] + board
            &&& pairs_view(req.form@) == post_form(
                board,
                post_key(dat_file@),
                name@,
                mail@,
                message@,
                use_sage,
                opt_pair_view(pending_confirm),
                now_unix as int,
            )
        },
{
    let (server, board) = match parse_board_server(board_url) {
        Ok(p) => p,
        Err(e) => {
            return Err(e);
        },
    };
    let d = chars_of(dat_file);
    let ext = vec!['.', 'd', 'a', 't'];
    assert(ext@ =~= lit_dat_ext());
    let end = if ends_with_exec(&d, &ext) {
        assert(d@.subrange(0, d.len() - 4) =~= d@.take(d.len() - 4));
        d.len() - 4
    } else {
        assert(d@.subrange(0, d.len() as int) =~= d@);
        d.len()
    };
    let (k0, k1) = trim_bounds(&d, 0, end);
    if k0 == k1 {
        return Err(text("スレッドキーを判定できません"));
    }
    let key = crate::textseq::string_of_range(&d, k0, k1);
    let sv = chars_of(server.as_str());
    let bv = chars_of(board.as_str());
    let mut url_chars: Vec<char> = chars_of("https://");
    extend_all(&mut url_chars, &sv);
    let tail = chars_of("/test/bbs.cgi");
    extend_all(&mut url_chars, &tail);
    let url = string_of(&url_chars);
    let referer = string_of(&url_chars);
    let mut scope: Vec<char> = Vec::new();
    extend_all(&mut scope, &sv);
    scope.push('/');
    extend_all(&mut scope, &bv);
    let mv = chars_of(mail);
    let (m0, m1) = trim_bounds(&mv, 0, mv.len());
    assert(mv@.subrange(0, mv.len() as int) =~= mv@);
    let mail_value = if use_sage && m0 == m1 {
        text("sage")
    } else {
        crate::textseq::string_of_range(&mv, m0, m1)
    };
    let mut form: Vec<(String, String)> = Vec::new();
    let ghost pending_view = opt_pair_view(pending_confirm);
    if pending_confirm.is_none() {
        let back = now_unix - 60;
        let t: u64 = if back >= 1 {
            back as u64
        } else {
            1
        };
        push_pair(&mut form, text("submit"), text("書き込む"));
        push_pair(&mut form, text("time"), string_of(&decimal_exec(t)));
    }
    push_pair(&mut form, text("oekaki_thread1"), String::new());
    push_pair(&mut form, text("bbs"), board);
    push_pair(&mut form, text("key"), key);
    push_pair(&mut form, text("FROM"), text(name));
    push_pair(&mut form, text("mail"), mail_value);
    push_pair(&mut form, text("MESSAGE"), text(message));
    match pending_confirm {
        Some((feature, time)) => {
            push_pair(&mut form, text("feature"), feature);
            push_pair(&mut form, text("time"), time);
            push_pair(&mut form, text("submit"), text("上記全てを承諾して書き込む"));
        },
        None => {},
    }
    proof {
        let expect = post_form(
            bv@,
            d@.subrange(k0 as int, k1 as int),
            name@,
            mail@,
            message@,
            use_sage,
            pending_view,
            now_unix as int,
        );
        assert(pairs_view(form@) =~= expect);
        assert(url_chars@ =~= "https://"@ + sv@ + "/test/bbs.cgi"@);
        assert(scope@ =~= sv@ + seq!['/'] + bv@);
    }
    Ok(PostRequest { url, referer, cookie_scope: string_of(&scope), form })
}

pub open spec fn msg_post_failed() -> Seq<char> {
    "投稿に失敗しました。本文かCookie、または投稿条件を確認してください"@
}

/// The reading of `bbs.cgi`'s reply page: one of three success phrases
/// means posted; hidden `feature` (starting with `confirmed:`) and `time`
/// fields mean a confirmation is needed; anything else is a failure.
pub open spec fn post_outcome(body: Seq<char>) -> Option<(Seq<char>, Seq<char>)> {
    let f = hidden_value(body, "feature"@);
    let t = hidden_value(body, "time"@);
    match (f, t) {
        (Some(feature), Some(time)) => if starts_with(feature, "confirmed:"@) {
            Some((feature, time))
        } else {
            None
        },
        _ => None,
    }
}

pub open spec fn post_succeeded(body: Seq<char>) -> bool {
    contains(body, "書きこみが終わりました"@) || contains(body, "書き込みが終わりました"@)
        || contains(body, "書きこみました"@)
}

/// What the reply bytes of `bbs.cgi` say about a post.
pub fn interpret_post_reply(reply: &[u8]) -> (r: Result<PostAttemptResult, String>)
    requires
        reply@.len() <= isize::MAX / 8,
    ensures
        ({
            let body = shift_jis_text(reply@);
            if post_succeeded(body) {
                r matches Ok(PostAttemptResult::Posted)
            } else {
                match post_outcome(body) {
                    Some((feature, time)) => r matches Ok(PostAttemptResult::NeedConfirm { feature: f, time: t }) && f@
                        == feature && t@ == time,
                    None => r matches Err(e) && e@ == msg_post_failed(),
                }
            }
        }),
{
    let body = decode_5ch_bytes(reply);
    let bv = chars_of(body.as_str());
    let s1 = chars_of("書きこみが終わりました");
    let s2 = chars_of("書き込みが終わりました");
    let s3 = chars_of("書きこみました");
    if contains_exec(&bv, &s1) || contains_exec(&bv, &s2) || contains_exec(&bv, &s3) {
        return Ok(PostAttemptResult::Posted);
    }
    let feature = extract_hidden_input_value(body.as_str(), "feature");
    let time = extract_hidden_input_value(body.as_str(), "time");
    let prefix = chars_of("confirmed:");
    match (feature, time) {
        (Some(f), Some(t)) => {
            let fv = chars_of(f.as_str());
            if starts_with_exec(&fv, &prefix) {
                Ok(PostAttemptResult::NeedConfirm { feature: f, time: t })
            } else {
                Err(text("投稿に失敗しました。本文かCookie、または投稿条件を確認してください"))
            }
        },
        _ => Err(text("投稿に失敗しました。本文かCookie、または投稿条件を確認してください")),
    }
}

} // verus!
