use xtools::config::{config_file_path, default_engine, TranslateConfig};
use xtools::engine::{
    baidu_salt, html_unescape, to_baidu_lang, BaiduEngine, BaiduResponse, BaiduTransItem, MemoryData,
    MemoryResponse, MyMemoryEngine, TranslateEngine, TranslateError,
};
use xtools::json_tree::JsonValue;
use xtools::md5::md5_hex;
use xtools::trans_app::{source_code, swap_state, target_code, TransView};

struct Echo;

impl TranslateEngine for Echo {
    fn name(&self) -> &'static str {
        "echo"
    }

    fn translate(&self, text: &str, src: &str, dst: &str) -> Result<String, TranslateError> {
        if text.trim().is_empty() {
            return Err(TranslateError::Empty);
        }
        Ok(format!("{src}->{dst}:{text}"))
    }
}

#[test]
fn swaps_non_auto_languages_and_text() {
    let (src, dst, input, output) = swap_state(2, 0, "hello".to_string(), "你好".to_string());
    assert_eq!(src, 1);
    assert_eq!(dst, 1);
    assert_eq!(input, "你好");
    assert_eq!(output, "hello");
}

#[test]
fn swaps_auto_source_language() {
    let (src, dst, _, _) = swap_state(0, 0, "".to_string(), "".to_string());
    assert_eq!(src, 1);
    assert_eq!(dst, 1);
}

#[test]
fn default_config_has_engine_zero() {
    let cfg = TranslateConfig::default();
    assert_eq!(cfg.engine_index, 0);
}

#[test]
fn trait_is_swappable() {
    let engine: Box<dyn TranslateEngine> = Box::new(Echo);
    assert_eq!(engine.name(), "echo");
    assert_eq!(engine.translate("hi", "en", "zh-CN").unwrap(), "en->zh-CN:hi");
    assert_eq!(engine.translate("  ", "en", "zh-CN"), Err(TranslateError::Empty));
}

#[test]
fn parses_success_payload() {
    let body = MemoryResponse {
        response_data: Some(MemoryData { translated_text: Some("你好".into()) }),
        response_status: JsonValue::Number("200".to_string()),
        response_details: None,
    };
    assert_eq!(body.into_text().unwrap(), "你好");
}

#[test]
fn parses_engine_error() {
    let body = MemoryResponse {
        response_data: None,
        response_status: JsonValue::String("403".to_string()),
        response_details: Some("QUERY LENGTH LIMIT EXCEEDED".into()),
    };
    assert_eq!(body.into_text(), Err(TranslateError::Engine("QUERY LENGTH LIMIT EXCEEDED".into())));
}

#[test]
fn rfc1321_md5_test_vectors() {
    assert_eq!(md5_hex(b""), "d41d8cd98f00b204e9800998ecf8427e");
    assert_eq!(md5_hex(b"a"), "0cc175b9c0f1b6a831c399e269772661");
    assert_eq!(md5_hex(b"abc"), "900150983cd24fb0d6963f7d28e17f72");
    assert_eq!(md5_hex(b"message digest"), "f96b697d7cb7938d525a2f31aaf161d0");
    assert_eq!(md5_hex(b"abcdefghijklmnopqrstuvwxyz"), "c3fcd3d76192e4007dfb496cca67e13b");
}

#[test]
fn parses_baidu_success_payload() {
    let body = BaiduResponse {
        trans_result: Some(vec![BaiduTransItem { dst: "你好".into() }, BaiduTransItem { dst: "世界".into() }]),
        error_code: None,
        error_msg: None,
    };
    assert_eq!(body.into_text().unwrap(), "你好\n世界");
}

#[test]
fn parses_baidu_error_payload() {
    let body = BaiduResponse {
        trans_result: None,
        error_code: Some(JsonValue::String("52003".to_string())),
        error_msg: Some("UNAUTHORIZED USER".into()),
    };
    assert_eq!(
        body.into_text(),
        Err(TranslateError::Engine("未授权用户：请检查 AppID 是否正确或开通服务".into()))
    );
}

#[test]
fn baidu_lang_mapping() {
    assert_eq!(to_baidu_lang("auto"), "auto");
    assert_eq!(to_baidu_lang("zh-CN"), "zh");
    assert_eq!(to_baidu_lang("ja"), "jp");
    assert_eq!(to_baidu_lang("ko"), "kor");
    assert_eq!(to_baidu_lang("fr"), "fra");
    assert_eq!(to_baidu_lang("es"), "spa");
}

#[test]
fn baidu_lang_fallbacks() {
    assert_eq!(to_baidu_lang("zh-TW"), "zh");
    assert_eq!(to_baidu_lang("pt"), "auto");
    assert_eq!(to_baidu_lang(""), "auto");
    assert_eq!(to_baidu_lang("ru"), "ru");
    assert_eq!(to_baidu_lang("de"), "de");
}

#[test]
fn md5_of_long_input_spans_blocks() {
    assert_eq!(
        md5_hex(b"12345678901234567890123456789012345678901234567890123456789012345678901234567890"),
        "57edf4a22be3c955ac49da2e2107b67a"
    );
    assert_eq!(
        md5_hex(b"ABCDEFGHIJKLMNOPQRSTUVWXYZabcdefghijklmnopqrstuvwxyz0123456789"),
        "d174ab98d277d9f5a5611c2c9f419d9f"
    );
}

#[test]
fn html_entities_are_decoded() {
    assert_eq!(html_unescape("a &amp; b &lt;c&gt; &quot;d&quot; &#39;e&#39;"), "a & b <c> \"d\" 'e'");
    assert_eq!(html_unescape("&amp;lt;"), "<");
    assert_eq!(html_unescape("no entities"), "no entities");
}

#[test]
fn memory_reply_status_and_blanks() {
    let blank = MemoryResponse {
        response_data: Some(MemoryData { translated_text: Some("  ".into()) }),
        response_status: JsonValue::String("200".to_string()),
        response_details: None,
    };
    assert_eq!(blank.into_text(), Err(TranslateError::Engine("引擎返回空译文。".into())));
    let failed = MemoryResponse {
        response_data: None,
        response_status: JsonValue::Number("500".to_string()),
        response_details: Some(" ".into()),
    };
    assert_eq!(failed.into_text(), Err(TranslateError::Engine("翻译失败。".into())));
    let escaped = MemoryResponse {
        response_data: Some(MemoryData { translated_text: Some("Tom &amp; Jerry".into()) }),
        response_status: JsonValue::Number("200".to_string()),
        response_details: None,
    };
    assert_eq!(escaped.into_text().unwrap(), "Tom & Jerry");
    let odd = MemoryResponse {
        response_data: Some(MemoryData { translated_text: Some("x".into()) }),
        response_status: JsonValue::Null,
        response_details: None,
    };
    assert_eq!(odd.into_text(), Err(TranslateError::Engine("翻译失败。".into())));
}

#[test]
fn baidu_reply_codes() {
    let ok_code = BaiduResponse {
        trans_result: Some(vec![BaiduTransItem { dst: "hi".into() }]),
        error_code: Some(JsonValue::Number("52000".to_string())),
        error_msg: None,
    };
    assert_eq!(ok_code.into_text().unwrap(), "hi");
    let unknown = BaiduResponse {
        trans_result: None,
        error_code: Some(JsonValue::Number("99999".to_string())),
        error_msg: Some("boom".into()),
    };
    assert_eq!(unknown.into_text(), Err(TranslateError::Engine("百度翻译错误 [99999]: boom".into())));
    let no_msg = BaiduResponse {
        trans_result: None,
        error_code: Some(JsonValue::String("12".to_string())),
        error_msg: None,
    };
    assert_eq!(no_msg.into_text(), Err(TranslateError::Engine("百度翻译错误 [12]: 未知错误".into())));
    let empty = BaiduResponse { trans_result: Some(vec![]), error_code: None, error_msg: None };
    assert_eq!(empty.into_text(), Err(TranslateError::Engine("百度翻译返回空译文。".into())));
    let signed = BaiduResponse {
        trans_result: None,
        error_code: Some(JsonValue::Number("54001".to_string())),
        error_msg: None,
    };
    assert_eq!(
        signed.into_text(),
        Err(TranslateError::Engine("签名错误：请检查 AppID 与 密钥 (Key) 是否匹配".into()))
    );
}

#[test]
fn error_messages() {
    assert_eq!(TranslateError::Empty.message(), "先输入要翻译的文字。");
    assert_eq!(TranslateError::Network.message(), "网络请求失败。");
    assert_eq!(TranslateError::Engine("x".into()).message(), "x");
}

#[test]
fn memory_request() {
    let engine = MyMemoryEngine;
    assert_eq!(engine.name(), "MyMemory");
    assert_eq!(engine.prepare(" \n", "en", "zh-CN"), Err(TranslateError::Empty));
    let q = engine.prepare("hello", "auto", "zh-CN").unwrap();
    assert_eq!(q.q, "hello");
    assert_eq!(q.langpair, "Autodetect|zh-CN");
    let q = engine.prepare("hello", "en", "ja").unwrap();
    assert_eq!(q.langpair, "en|ja");
}

#[test]
fn baidu_request() {
    let engine = BaiduEngine::new(" 2015063000000001 ", "12345678");
    assert_eq!(engine.name(), "百度翻译");
    assert_eq!(engine.prepare("", "en", "zh", "1"), Err(TranslateError::Empty));
    let blank = BaiduEngine::new("id", "  ");
    assert_eq!(
        blank.prepare("apple", "en", "zh", "1"),
        Err(TranslateError::Engine("请先配置百度翻译 AppID 和 密钥 (Key)。".into()))
    );
    let q = engine.prepare("apple", "en", "zh-CN", "1435660288").unwrap();
    assert_eq!(q.appid, "2015063000000001");
    assert_eq!(q.from, "en");
    assert_eq!(q.to, "zh");
    assert_eq!(q.salt, "1435660288");
    assert_eq!(q.sign, md5_hex(b"2015063000000001apple143566028812345678"));
    assert_eq!(q.sign, "f89f9594663708c1605f3d736d01d2d4");
}

#[test]
fn baidu_salt_text() {
    assert_eq!(baidu_salt(Some(1700000000123)), "1700000000123");
    assert_eq!(baidu_salt(None), "123456");
}

#[test]
fn swapping_twice_restores() {
    let (s, d, i, o) = swap_state(3, 5, "a".to_string(), "b".to_string());
    let (s2, d2, i2, o2) = swap_state(s, d, i, o);
    assert_eq!((s2, d2, i2.as_str(), o2.as_str()), (3, 5, "a", "b"));
}

#[test]
fn swap_keeps_texts_without_translation() {
    let (s, d, i, o) = swap_state(1, 2, "text".to_string(), "  ".to_string());
    assert_eq!((s, d), (3, 0));
    assert_eq!(i, "text");
    assert_eq!(o, "  ");
}

#[test]
fn language_codes() {
    assert_eq!(source_code(0), "auto");
    assert_eq!(source_code(1), "zh-CN");
    assert_eq!(source_code(8), "ru");
    assert_eq!(source_code(100), "ru");
    assert_eq!(target_code(0), "zh-CN");
    assert_eq!(target_code(6), "es");
    assert_eq!(target_code(50), "ru");
}

#[test]
fn config_env_merge() {
    let cfg = TranslateConfig::from_env(Some("id".into()), None);
    assert_eq!(cfg.engine_index, default_engine());
    assert_eq!(cfg.baidu_appid, "id");
    assert_eq!(cfg.baidu_key, "");
    let loaded = TranslateConfig { engine_index: 1, baidu_appid: "file".into(), baidu_key: String::new() };
    let merged = loaded.fill_from_env(Some("env-id".into()), Some("env-key".into()));
    assert_eq!(merged.engine_index, 1);
    assert_eq!(merged.baidu_appid, "file");
    assert_eq!(merged.baidu_key, "env-key");
}

#[test]
fn config_path_choice() {
    assert_eq!(config_file_path(Some("/x"), Some("/home/u")), Some("/x/xtools/translate.json".to_string()));
    assert_eq!(config_file_path(None, Some("/home/u")), Some("/home/u/.config/xtools/translate.json".to_string()));
    assert_eq!(config_file_path(None, None), None);
}

#[test]
fn trans_view_flow() {
    let mut view = TransView::new("MyMemory");
    assert_eq!(view.status, "引擎：MyMemory");
    assert_eq!(view.begin_translate(), None);
    assert_eq!(view.error, "先输入要翻译的文字。");
    view.input_edited("hello".to_string());
    assert!(view.can_translate);
    view.dst_index = 1;
    let job = view.begin_translate().unwrap();
    assert_eq!((job.text.as_str(), job.src, job.dst), ("hello", "auto", "en"));
    assert!(view.pending);
    assert_eq!(view.begin_translate(), None);
    view.finish_translate(Ok("你好".to_string()));
    assert!(!view.pending);
    assert_eq!(view.output, "你好");
    assert!(view.can_copy);
    view.finish_translate(Err(TranslateError::Network));
    assert_eq!(view.error, "网络请求失败。");
    assert_eq!(view.output, "你好");
    assert_eq!(view.copy_output(), Some("你好".to_string()));
    assert!(view.copied);
    view.copy_expired();
    assert!(!view.copied);
    view.swap();
    assert_eq!((view.src_index, view.dst_index), (2, 0));
    assert_eq!(view.input, "你好");
    assert_eq!(view.output, "hello");
}
