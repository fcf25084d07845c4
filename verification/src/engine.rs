//! Translation engines: what a request to MyMemory or to Baidu Translate
//! holds, and what their replies come to.
//!
//! The HTTP exchange itself is the caller's: it sends the request that
//! `prepare` builds and hands the decoded reply to `into_text`.

use vstd::prelude::*;
use vstd::utf8::encode_utf8;
use crate::json_tree::JsonValue;
use crate::md5::{hex_lower, md5_digest, md5_hex};
use crate::text::{
    all_whitespace, all_ws, chars_of, decimal, equals_chars, push_char, push_chars,
    push_decimal_u128, push_str, replace_all, replace_chars, starts_with_chars, string_of, trim,
    trim_bounds, trimmed,
};

verus! {

broadcast use vstd::string::group_string_axioms;

/// Why a translation failed. The text of each is what the user is shown.
#[derive(Debug, PartialEq, Eq)]
pub enum TranslateError {
    /// Nothing to translate.
    Empty,
    /// The request did not reach the engine.
    Network,
    /// The engine answered with an error, or with nothing usable.
    Engine(String),
}

/// The mathematical value of a [`TranslateError`].
pub ghost enum ErrorView {
    Empty,
    Network,
    Engine(Seq<char>),
}

impl View for TranslateError {
    type V = ErrorView;

    open spec fn view(&self) -> ErrorView {
        match self {
            TranslateError::Empty => ErrorView::Empty,
            TranslateError::Network => ErrorView::Network,
            TranslateError::Engine(m) => ErrorView::Engine(m@),
        }
    }
}

/// The text shown for an error.
pub open spec fn error_text(e: ErrorView) -> Seq<char> {
    match e {
        ErrorView::Empty => "先输入要翻译的文字。"@,
        ErrorView::Network => "网络请求失败。"@,
        ErrorView::Engine(m) => m,
    }
}

/// The value of a translation's outcome.
pub open spec fn outcome_view(r: Result<String, TranslateError>) -> Result<Seq<char>, ErrorView> {
    match r {
        Ok(s) => Ok(s@),
        Err(e) => Err(e@),
    }
}

fn owned(s: &str) -> (r: String)
    ensures
        r@ == s@,
{
    s.to_owned()
}

impl TranslateError {
    /// The text shown to the user.
    pub fn message(&self) -> (r: String)
        ensures
            r@ == error_text(self@),
    {
        match self {
            TranslateError::Empty => owned("先输入要翻译的文字。"),
            TranslateError::Network => owned("网络请求失败。"),
            TranslateError::Engine(m) => m.clone(),
        }
    }
}

/// A translation service. An engine refuses text that is only white space
/// with [`TranslateError::Empty`].
pub trait TranslateEngine: Send + Sync {
    /// Name shown in the status line.
    fn name(&self) -> &'static str;

    /// Translates `text` from language `src` (or `"auto"`) into `dst`.
    fn translate(&self, text: &str, src: &str, dst: &str) -> Result<String, TranslateError>;
}

/// The free MyMemory service, which needs no credentials.
pub struct MyMemoryEngine;

/// A MyMemory query: the text and the `source|target` language pair.
#[derive(Debug, Clone, PartialEq, Eq)]
pub struct MemoryRequest {
    pub q: String,
    pub langpair: String,
}

pub open spec fn auto_code() -> Seq<char> {
    seq!['a', 'u', 't', 'o']
}

/// MyMemory's name for a source language: it detects the language itself
/// when asked for `Autodetect`.
pub open spec fn memory_source(src: Seq<char>) -> Seq<char> {
    if src == auto_code() {
        "Autodetect"@
    } else {
        src
    }
}

impl MyMemoryEngine {
    /// Name shown in the status line.
    pub fn name(&self) -> (r: &'static str)
        ensures
            r@ == "MyMemory"@,
    {
        "MyMemory"
    }

    /// The query for translating `text` from `src` into `dst`; refused when
    /// `text` is only white space.
    pub fn prepare(&self, text: &str, src: &str, dst: &str) -> (r: Result<MemoryRequest, TranslateError>)
        ensures
            all_ws(text@) <==> r is Err,
            r matches Err(e) ==> e@ == ErrorView::Empty,
            r matches Ok(q) ==> q.q@ == text@ && q.langpair@ == memory_source(src@) + seq!['|'] + dst@,
    {
        let tv = chars_of(text);
        if all_whitespace(&tv) {
            return Err(TranslateError::Empty);
        }
        let sv = chars_of(src);
        let mut pair = String::new();
        if equals_chars(&sv, &['a', 'u', 't', 'o']) {
            push_str(&mut pair, "Autodetect");
        } else {
            push_str(&mut pair, src);
        }
        push_char(&mut pair, '|');
        push_str(&mut pair, dst);
        assert(pair@ =~= memory_source(src@) + seq!['|'] + dst@);
        Ok(MemoryRequest { q: owned(text), langpair: pair })
    }
}

/// Baidu's code for a language of the tool's lists.
pub open spec fn baidu_code(lang: Seq<char>) -> Seq<char> {
    if lang == auto_code() {
        "auto"@
    } else if lang == seq!['z', 'h'] || lang == seq!['z', 'h', '-', 'C', 'N'] || lang == seq!['z', 'h', '-', 'H', 'a', 'n', 's'] {
        "zh"@
    } else if lang == seq!['e', 'n'] {
        "en"@
    } else if lang == seq!['j', 'a'] || lang == seq!['j', 'p'] {
        "jp"@
    } else if lang == seq!['k', 'o'] || lang == seq!['k', 'o', 'r'] {
        "kor"@
    } else if lang == seq!['f', 'r'] || lang == seq!['f', 'r', 'a'] {
        "fra"@
    } else if lang == seq!['d', 'e'] {
        "de"@
    } else if lang == seq!['e', 's'] || lang == seq!['s', 'p', 'a'] {
        "spa"@
    } else if lang == seq!['r', 'u'] {
        "ru"@
    } else if lang.len() >= 2 && lang.take(2) == seq!['z', 'h'] {
        "zh"@
    } else {
        "auto"@
    }
}

/// Maps generic language codes to Baidu language codes.
pub fn to_baidu_lang(lang: &str) -> (r: &'static str)
    ensures
        r@ == baidu_code(lang@),
{
    let v = chars_of(lang);
    if equals_chars(&v, &['a', 'u', 't', 'o']) {
        "auto"
    } else if equals_chars(&v, &['z', 'h']) || equals_chars(&v, &['z', 'h', '-', 'C', 'N'])
        || equals_chars(&v, &['z', 'h', '-', 'H', 'a', 'n', 's']) {
        "zh"
    } else if equals_chars(&v, &['e', 'n']) {
        "en"
    } else if equals_chars(&v, &['j', 'a']) || equals_chars(&v, &['j', 'p']) {
        "jp"
    } else if equals_chars(&v, &['k', 'o']) || equals_chars(&v, &['k', 'o', 'r']) {
        "kor"
    } else if equals_chars(&v, &['f', 'r']) || equals_chars(&v, &['f', 'r', 'a']) {
        "fra"
    } else if equals_chars(&v, &['d', 'e']) {
        "de"
    } else if equals_chars(&v, &['e', 's']) || equals_chars(&v, &['s', 'p', 'a']) {
        "spa"
    } else if equals_chars(&v, &['r', 'u']) {
        "ru"
    } else if starts_with_chars(&v, &['z', 'h']) {
        "zh"
    } else {
        "auto"
    }
}

/// The Baidu Translation Open Platform, with the account's app id and key.
pub struct BaiduEngine {
    pub appid: String,
    pub key: String,
}

/// A Baidu request: the form fields, `sign` being the MD5 of app id, text,
/// salt and key.
#[derive(Debug, Clone, PartialEq, Eq)]
pub struct BaiduRequest {
    pub q: String,
    pub from: &'static str,
    pub to: &'static str,
    pub appid: String,
    pub salt: String,
    pub sign: String,
}

/// The message for missing credentials.
pub open spec fn missing_credentials() -> Seq<char> {
    "请先配置百度翻译 AppID 和 密钥 (Key)。"@
}

/// What Baidu signs: app id, text, salt and key, the credentials trimmed.
pub open spec fn baidu_sign_input(appid: Seq<char>, text: Seq<char>, salt: Seq<char>, key: Seq<char>) -> Seq<char> {
    trim(appid) + text + salt + trim(key)
}

/// The salt sent with a request: the current time in milliseconds, or a
/// fixed number where the clock stands before 1970.
pub fn baidu_salt(millis: Option<u128>) -> (r: String)
    ensures
        r@ == decimal(
            match millis {
                Some(m) => m as nat,
                None => 123456nat,
            },
        ),
{
    let mut s = String::new();
    match millis {
        Some(m) => push_decimal_u128(&mut s, m),
        None => push_decimal_u128(&mut s, 123456),
    }
    s
}

impl BaiduEngine {
    /// An engine with these credentials.
    pub fn new(appid: &str, key: &str) -> (r: BaiduEngine)
        ensures
            r.appid@ == appid@,
            r.key@ == key@,
    {
        BaiduEngine { appid: owned(appid), key: owned(key) }
    }

    /// Name shown in the status line.
    pub fn name(&self) -> (r: &'static str)
        ensures
            r@ == "百度翻译"@,
    {
        "百度翻译"
    }

    /// The request for translating `text` from `src` into `dst` with the
    /// given salt; refused when `text` is only white space, or when the app
    /// id or the key is.
    pub fn prepare(&self, text: &str, src: &str, dst: &str, salt: &str) -> (r: Result<BaiduRequest, TranslateError>)
        ensures
            all_ws(text@) ==> (r matches Err(e) && e@ == ErrorView::Empty),
            !all_ws(text@) && (all_ws(self.appid@) || all_ws(self.key@)) ==> (r matches Err(e) && e@
                == ErrorView::Engine(missing_credentials())),
            !all_ws(text@) && !all_ws(self.appid@) && !all_ws(self.key@) ==> (r matches Ok(q) && {
                &&& q.q@ == text@
                &&& q.from@ == baidu_code(src@)
                &&& q.to@ == baidu_code(dst@)
                &&& q.appid@ == trim(self.appid@)
                &&& q.salt@ == salt@
                &&& q.sign@ == hex_lower(md5_digest(encode_utf8(baidu_sign_input(self.appid@, text@, salt@, self.key@))))
                &&& q.sign@ == hex_lower(md5_digest(encode_utf8(q.appid@ + q.q@ + q.salt@ + trim(self.key@))))
            }),
    {
        let tv = chars_of(text);
        if all_whitespace(&tv) {
            return Err(TranslateError::Empty);
        }
        let av = chars_of(self.appid.as_str());
        let kv = chars_of(self.key.as_str());
        if all_whitespace(&av) || all_whitespace(&kv) {
            return Err(TranslateError::Engine(owned("请先配置百度翻译 AppID 和 密钥 (Key)。")));
        }
        let appid = trimmed(self.appid.as_str());
        let key = trimmed(self.key.as_str());
        let mut sign_input = String::new();
        push_str(&mut sign_input, appid.as_str());
        push_str(&mut sign_input, text);
        push_str(&mut sign_input, salt);
        push_str(&mut sign_input, key.as_str());
        assert(sign_input@ =~= baidu_sign_input(self.appid@, text@, salt@, self.key@));
        assert(sign_input@ =~= appid@ + text@ + salt@ + key@);
        let sign = md5_hex(sign_input.as_str().as_bytes());
        Ok(BaiduRequest {
            q: owned(text),
            from: to_baidu_lang(src),
            to: to_baidu_lang(dst),
            appid,
            salt: owned(salt),
            sign,
        })
    }
}

/// `&quot;`, `&#39;`, `&amp;`, `&lt;` and `&gt;` decoded, in that order, as
/// MyMemory escapes its replies.
pub open spec fn unescaped_html(s: Seq<char>) -> Seq<char> {
    let a = replace_all(s, seq!['&', 'q', 'u', 'o', 't', ';'], seq!['"']);
    let b = replace_all(a, seq!['&', '#', '3', '9', ';'], seq!['\'']);
    let c = replace_all(b, seq!['&', 'a', 'm', 'p', ';'], seq!['&']);
    let d = replace_all(c, seq!['&', 'l', 't', ';'], seq!['<']);
    replace_all(d, seq!['&', 'g', 't', ';'], seq!['>'])
}

/// Decodes the HTML entities that MyMemory puts in its replies.
pub fn html_unescape(text: &str) -> (r: String)
    ensures
        r@ == unescaped_html(text@),
{
    let v = chars_of(text);
    let quot: &[char] = &['&', 'q', 'u', 'o', 't', ';'];
    let apos: &[char] = &['&', '#', '3', '9', ';'];
    let amp: &[char] = &['&', 'a', 'm', 'p', ';'];
    let lt: &[char] = &['&', 'l', 't', ';'];
    let gt: &[char] = &['&', 'g', 't', ';'];
    let dq: &[char] = &['"'];
    let sq: &[char] = &['\''];
    let am: &[char] = &['&'];
    let l: &[char] = &['<'];
    let g: &[char] = &['>'];
    assert(quot@ =~= seq!['&', 'q', 'u', 'o', 't', ';'] && dq@ =~= seq!['"']);
    assert(apos@ =~= seq!['&', '#', '3', '9', ';'] && sq@ =~= seq!['\'']);
    assert(amp@ =~= seq!['&', 'a', 'm', 'p', ';'] && am@ =~= seq!['&']);
    assert(lt@ =~= seq!['&', 'l', 't', ';'] && l@ =~= seq!['<']);
    assert(gt@ =~= seq!['&', 'g', 't', ';'] && g@ =~= seq!['>']);
    let a = replace_chars(&v, quot, dq);
    let b = replace_chars(&a, apos, sq);
    let c = replace_chars(&b, amp, am);
    let d = replace_chars(&c, lt, l);
    let e = replace_chars(&d, gt, g);
    assert(e@ =~= unescaped_html(text@));
    string_of(&e, 0, e.len())
}

/// The translation in a MyMemory reply.
#[derive(Debug, Clone, PartialEq, Eq)]
pub struct MemoryData {
    pub translated_text: Option<String>,
}

/// A MyMemory reply. `response_status` is the JSON value of the status, a
/// number held as the text that `serde_json` prints for it.
#[derive(Debug, PartialEq, Eq)]
pub struct MemoryResponse {
    pub response_data: Option<MemoryData>,
    pub response_status: JsonValue,
    pub response_details: Option<String>,
}

/// Whether a status is 200, as a number or as a string.
pub open spec fn status_ok(status: JsonValue) -> bool {
    match status {
        JsonValue::Number(t) => t@ == seq!['2', '0', '0'],
        JsonValue::String(t) => t@ == seq!['2', '0', '0'],
        _ => false,
    }
}

/// The decoded translation of a reply, where it has one that is not blank.
pub open spec fn memory_translation(data: Option<MemoryData>) -> Option<Seq<char>> {
    match data {
        Some(d) => match d.translated_text {
            Some(t) => if all_ws(unescaped_html(t@)) {
                None
            } else {
                Some(unescaped_html(t@))
            },
            None => None,
        },
        None => None,
    }
}

/// What a MyMemory reply comes to: on status 200 its translation, or an
/// error where it has none; on any other status an error with the reply's
/// details, or a general message where they are blank.
pub open spec fn memory_outcome(resp: MemoryResponse) -> Result<Seq<char>, ErrorView> {
    if status_ok(resp.response_status) {
        match memory_translation(resp.response_data) {
            Some(t) => Ok(t),
            None => Err(ErrorView::Engine("引擎返回空译文。"@)),
        }
    } else {
        Err(
            ErrorView::Engine(
                match resp.response_details {
                    Some(d) if !all_ws(d@) => d@,
                    _ => "翻译失败。"@,
                },
            ),
        )
    }
}

fn is_status_200(status: &JsonValue) -> (r: bool)
    ensures
        r == status_ok(*status),
{
    match status {
        JsonValue::Number(t) => {
            let v = chars_of(t.as_str());
            equals_chars(&v, &['2', '0', '0'])
        },
        JsonValue::String(t) => {
            let v = chars_of(t.as_str());
            equals_chars(&v, &['2', '0', '0'])
        },
        _ => false,
    }
}

impl MemoryResponse {
    /// The translation the reply carries, or the error it reports.
    pub fn into_text(self) -> (r: Result<String, TranslateError>)
        ensures
            outcome_view(r) == memory_outcome(self),
    {
        let ok = is_status_200(&self.response_status);
        let text = match self.response_data {
            Some(d) => match d.translated_text {
                Some(t) => {
                    let u = html_unescape(t.as_str());
                    let uv = chars_of(u.as_str());
                    if all_whitespace(&uv) {
                        None
                    } else {
                        Some(u)
                    }
                },
                None => None,
            },
            None => None,
        };
        if ok {
            match text {
                Some(t) => Ok(t),
                None => Err(TranslateError::Engine(owned("引擎返回空译文。"))),
            }
        } else {
            let detail = match self.response_details {
                Some(d) => {
                    let dv = chars_of(d.as_str());
                    if all_whitespace(&dv) {
                        owned("翻译失败。")
                    } else {
                        d
                    }
                },
                None => owned("翻译失败。"),
            };
            Err(TranslateError::Engine(detail))
        }
    }
}

/// One translated segment of a Baidu reply.
#[derive(Debug, Clone, PartialEq, Eq)]
pub struct BaiduTransItem {
    pub dst: String,
}

/// A Baidu reply. `error_code` is the JSON value of the code, a number held
/// as the text that `serde_json` prints for it.
#[derive(Debug, PartialEq, Eq)]
pub struct BaiduResponse {
    pub trans_result: Option<Vec<BaiduTransItem>>,
    pub error_code: Option<JsonValue>,
    pub error_msg: Option<String>,
}

/// The text of an error code: a number's or a string's text, else nothing.
pub open spec fn code_text(code: JsonValue) -> Seq<char> {
    match code {
        JsonValue::Number(t) => t@,
        JsonValue::String(t) => t@,
        _ => Seq::empty(),
    }
}

/// The message Baidu's documentation gives for a known error code.
pub open spec fn known_baidu_error(code: Seq<char>) -> Option<Seq<char>> {
    if code == seq!['5', '2', '0', '0', '1'] {
        Some("请求超时，请重试"@)
    } else if code == seq!['5', '2', '0', '0', '2'] {
        Some("百度系统错误，请稍后重试"@)
    } else if code == seq!['5', '2', '0', '0', '3'] {
        Some("未授权用户：请检查 AppID 是否正确或开通服务"@)
    } else if code == seq!['5', '4', '0', '0', '0'] {
        Some("必填参数为空"@)
    } else if code == seq!['5', '4', '0', '0', '1'] {
        Some("签名错误：请检查 AppID 与 密钥 (Key) 是否匹配"@)
    } else if code == seq!['5', '4', '0', '0', '3'] {
        Some("访问频率受限，请稍后重试"@)
    } else if code == seq!['5', '4', '0', '0', '4'] {
        Some("账户余额不足"@)
    } else if code == seq!['5', '4', '0', '0', '5'] {
        Some("长请求频繁，请稍后重试"@)
    } else if code == seq!['5', '8', '0', '0', '0'] {
        Some("客户端 IP 非法"@)
    } else if code == seq!['5', '8', '0', '0', '1'] {
        Some("译文语言方向不支持"@)
    } else if code == seq!['5', '8', '0', '0', '2'] {
        Some("服务当前已关闭"@)
    } else {
        None
    }
}

/// The message for an error code: the documented one, or the code with the
/// reply's own message (or `未知错误`).
pub open spec fn baidu_error_message(code: Seq<char>, msg: Option<String>) -> Seq<char> {
    match known_baidu_error(code) {
        Some(m) => m,
        None => "百度翻译错误 ["@ + code + "]: "@ + match msg {
            Some(m) => m@,
            None => "未知错误"@,
        },
    }
}

/// The segments' translations, one per line.
pub open spec fn join_lines(items: Seq<BaiduTransItem>) -> Seq<char>
    decreases items.len(),
{
    if items.len() == 0 {
        Seq::empty()
    } else if items.len() == 1 {
        items[0].dst@
    } else {
        join_lines(items.drop_last()) + seq!['\n'] + items.last().dst@
    }
}

/// Whether the reply reports an error: a code that is not blank and not the
/// success code 52000.
pub open spec fn baidu_reports_error(resp: BaiduResponse) -> bool {
    match resp.error_code {
        Some(c) => code_text(c).len() > 0 && code_text(c) != seq!['5', '2', '0', '0', '0'],
        None => false,
    }
}

/// What a Baidu reply comes to: its error where it reports one; else the
/// segments' translations, one per line, where there are any and they are not
/// blank; else an error.
pub open spec fn baidu_outcome(resp: BaiduResponse) -> Result<Seq<char>, ErrorView> {
    if baidu_reports_error(resp) {
        Err(ErrorView::Engine(baidu_error_message(code_text(resp.error_code->0), resp.error_msg)))
    } else {
        match resp.trans_result {
            Some(items) if items@.len() > 0 && !all_ws(join_lines(items@)) => Ok(join_lines(items@)),
            _ => Err(ErrorView::Engine("百度翻译返回空译文。"@)),
        }
    }
}

fn code_string(code: &JsonValue) -> (r: String)
    ensures
        r@ == code_text(*code),
{
    match code {
        JsonValue::Number(t) => t.clone(),
        JsonValue::String(t) => t.clone(),
        _ => String::new(),
    }
}

fn known_error_text(code: &Vec<char>) -> (r: Option<String>)
    ensures
        match r {
            Some(m) => known_baidu_error(code@) == Some(m@),
            None => known_baidu_error(code@) is None,
        },
{
    if equals_chars(code, &['5', '2', '0', '0', '1']) {
        Some(owned("请求超时，请重试"))
    } else if equals_chars(code, &['5', '2', '0', '0', '2']) {
        Some(owned("百度系统错误，请稍后重试"))
    } else if equals_chars(code, &['5', '2', '0', '0', '3']) {
        Some(owned("未授权用户：请检查 AppID 是否正确或开通服务"))
    } else if equals_chars(code, &['5', '4', '0', '0', '0']) {
        Some(owned("必填参数为空"))
    } else if equals_chars(code, &['5', '4', '0', '0', '1']) {
        Some(owned("签名错误：请检查 AppID 与 密钥 (Key) 是否匹配"))
    } else if equals_chars(code, &['5', '4', '0', '0', '3']) {
        Some(owned("访问频率受限，请稍后重试"))
    } else if equals_chars(code, &['5', '4', '0', '0', '4']) {
        Some(owned("账户余额不足"))
    } else if equals_chars(code, &['5', '4', '0', '0', '5']) {
        Some(owned("长请求频繁，请稍后重试"))
    } else if equals_chars(code, &['5', '8', '0', '0', '0']) {
        Some(owned("客户端 IP 非法"))
    } else if equals_chars(code, &['5', '8', '0', '0', '1']) {
        Some(owned("译文语言方向不支持"))
    } else if equals_chars(code, &['5', '8', '0', '0', '2']) {
        Some(owned("服务当前已关闭"))
    } else {
        None
    }
}

fn join_items(items: &Vec<BaiduTransItem>) -> (r: String)
    ensures
        r@ == join_lines(items@),
{
    let mut s = String::new();
    let mut i: usize = 0;
    while i < items.len()
        invariant
            i <= items@.len(),
            s@ == join_lines(items@.take(i as int)),
        decreases items@.len() - i,
    {
        if i > 0 {
            push_char(&mut s, '\n');
        }
        push_str(&mut s, items[i].dst.as_str());
        proof {
            let t = items@.take(i + 1);
            assert(t.drop_last() =~= items@.take(i as int));
            if i == 0 {
                assert(s@ =~= join_lines(t));
            } else {
                assert(s@ =~= join_lines(t));
            }
        }
        i = i + 1;
    }
    assert(items@.take(items@.len() as int) =~= items@);
    s
}

impl BaiduResponse {
    /// The translation the reply carries, or the error it reports.
    pub fn into_text(self) -> (r: Result<String, TranslateError>)
        ensures
            outcome_view(r) == baidu_outcome(self),
    {
        let ghost orig = self;
        match &self.error_code {
            Some(code_val) => {
                let code = code_string(code_val);
                let cv = chars_of(code.as_str());
                if cv.len() > 0 && !equals_chars(&cv, &['5', '2', '0', '0', '0']) {
                    let msg = match known_error_text(&cv) {
                        Some(m) => m,
                        None => {
                            let mut m = String::new();
                            push_str(&mut m, "百度翻译错误 [");
                            push_str(&mut m, code.as_str());
                            push_str(&mut m, "]: ");
                            match &self.error_msg {
                                Some(d) => push_str(&mut m, d.as_str()),
                                None => push_str(&mut m, "未知错误"),
                            }
                            assert(m@ =~= baidu_error_message(code@, self.error_msg));
                            m
                        },
                    };
                    return Err(TranslateError::Engine(msg));
                }
            },
            None => {},
        }
        match &self.trans_result {
            Some(items) => {
                if items.len() > 0 {
                    let text = join_items(items);
                    let tv = chars_of(text.as_str());
                    if !all_whitespace(&tv) {
                        return Ok(text);
                    }
                }
            },
            None => {},
        }
        Err(TranslateError::Engine(owned("百度翻译返回空译文。")))
    }
}

} // verus!
