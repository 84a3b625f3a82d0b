use explainer::botlib::requests::{
    answer_request, audio_request, get_me_url, last_update_id, photo_request, send_outcome,
    text_request, voice_request, VoiceRequest,
};
use explainer::botlib::results::{inline_query_results, InlineRequest};
use explainer::botlib::{
    BotError, BotUpdate, CallBackQuery, Chat, InlineQuery, InlineQueryResult, InputMessageContent,
    Message, MessageType, ReplyMarkup, Route, Telebotapi, User,
};

type Handler = fn(u32) -> u32;

fn h1(x: u32) -> u32 {
    x + 1
}
fn h2(x: u32) -> u32 {
    x + 2
}
fn h3(x: u32) -> u32 {
    x + 3
}

fn user() -> User {
    User {
        id: 7,
        is_bot: false,
        first_name: String::from("Ann"),
        last_name: None,
        username: None,
        language_code: None,
    }
}

fn message(text: Option<&str>) -> Message {
    Message {
        message_id: 1,
        date: 0,
        chat: Chat { id: 42, chat_type: String::from("private") },
        text: text.map(String::from),
    }
}

fn text_update(id: u64, text: Option<&str>) -> BotUpdate {
    BotUpdate { update_id: id, message: Some(message(text)), inline_query: None, callback_query: None }
}

fn inline_update() -> BotUpdate {
    BotUpdate {
        update_id: 3,
        message: None,
        inline_query: Some(InlineQuery {
            id: String::from("q1"),
            from: user(),
            query: String::from("apple"),
            offset: String::new(),
            chat_type: None,
        }),
        callback_query: None,
    }
}

fn callback_update(data: Option<&str>) -> BotUpdate {
    BotUpdate {
        update_id: 4,
        message: None,
        inline_query: None,
        callback_query: Some(CallBackQuery {
            id: String::from("c1"),
            from: user(),
            message: None,
            inline_message_id: None,
            chat_instance: String::from("i"),
            data: data.map(String::from),
        }),
    }
}

fn bot() -> Telebotapi<Handler> {
    match Telebotapi::new("TOKEN", true) {
        Ok(b) => b,
        Err(_) => panic!("the bot is known"),
    }
}

fn run(r: Route) -> Vec<usize> {
    match r {
        Route::Run(v) => v,
        Route::Fallback => panic!("expected handlers"),
    }
}

#[test]
fn unknown_bot_is_refused() {
    assert!(matches!(Telebotapi::<Handler>::new("TOKEN", false), Err(BotError::BotDoesntExist)));
    let b = bot();
    assert_eq!(b.api, "TOKEN");
    assert!(b.handle.is_none());
}

#[test]
fn text_key_matches_same_text_only() {
    let u = text_update(1, Some("/start"));
    assert!(MessageType::Text(String::from("/start")).eq(&u));
    assert!(!MessageType::Text(String::from("/help")).eq(&u));
    assert!(!MessageType::InlineQuery.eq(&u));
    assert!(!MessageType::CallBackQuery(String::from("/start")).eq(&u));
}

#[test]
fn inline_key_matches_inline_queries() {
    let u = inline_update();
    assert!(MessageType::InlineQuery.eq(&u));
    assert!(!MessageType::Text(String::from("apple")).eq(&u));
}

#[test]
fn callback_key_matches_same_data_only() {
    let u = callback_update(Some("apple"));
    assert!(MessageType::CallBackQuery(String::from("apple")).eq(&u));
    assert!(!MessageType::CallBackQuery(String::from("pear")).eq(&u));
    assert!(!MessageType::CallBackQuery(String::new()).eq(&callback_update(None)));
}

#[test]
fn message_without_text_matches_nothing() {
    let u = text_update(1, None);
    assert!(!MessageType::Text(String::new()).eq(&u));
    assert!(!MessageType::InlineQuery.eq(&u));
}

#[test]
fn same_key_compares_kind_and_text() {
    assert!(MessageType::Text(String::from("a")).same_key(&MessageType::Text(String::from("a"))));
    assert!(!MessageType::Text(String::from("a")).same_key(&MessageType::Text(String::from("b"))));
    assert!(!MessageType::Text(String::from("a")).same_key(&MessageType::CallBackQuery(String::from("a"))));
    assert!(MessageType::InlineQuery.same_key(&MessageType::InlineQuery));
}

#[test]
fn bot_without_handlers_falls_back() {
    let b = bot();
    assert!(matches!(b.route(&text_update(1, Some("hi"))), Route::Fallback));
}

#[test]
fn adding_a_handler_twice_replaces_it() {
    let mut b = bot();
    b.add_handler(MessageType::Text(String::from("/start")), h1);
    b.add_handler(MessageType::Text(String::from("/help")), h2);
    b.add_handler(MessageType::Text(String::from("/start")), h3);
    let v = b.handle.as_ref().unwrap();
    assert_eq!(v.len(), 2);
    assert_eq!((v[0].1)(0), 3);
    assert_eq!((v[1].1)(0), 2);
}

#[test]
fn route_runs_matching_handlers() {
    let mut b = bot();
    b.add_handler(MessageType::Text(String::new()), h1);
    b.add_handler(MessageType::Text(String::from("/start")), h2);
    b.add_handler(MessageType::InlineQuery, h3);
    assert_eq!(run(b.route(&text_update(1, Some("/start")))), vec![1]);
    assert_eq!(run(b.route(&inline_update())), vec![2]);
}

#[test]
fn route_falls_back_to_default_text_handler() {
    let mut b = bot();
    b.add_handler(MessageType::Text(String::new()), h1);
    b.add_handler(MessageType::Text(String::from("/start")), h2);
    assert_eq!(run(b.route(&text_update(1, Some("apple")))), vec![0]);
    assert_eq!(run(b.route(&text_update(1, None))), vec![0]);
    assert_eq!(run(b.route(&text_update(1, Some("")))), vec![0]);
}

#[test]
fn route_falls_back_to_default_callback_handler() {
    let mut b = bot();
    b.add_handler(MessageType::CallBackQuery(String::new()), h1);
    b.add_handler(MessageType::CallBackQuery(String::from("x")), h2);
    assert_eq!(run(b.route(&callback_update(Some("apple")))), vec![0]);
    assert_eq!(run(b.route(&callback_update(Some("x")))), vec![1]);
}

#[test]
fn route_without_default_runs_nothing() {
    let mut b = bot();
    b.add_handler(MessageType::Text(String::from("/start")), h1);
    assert!(run(b.route(&text_update(1, Some("apple")))).is_empty());
    assert!(run(b.route(&inline_update())).is_empty());
}

#[test]
fn article_needs_title_and_text() {
    assert!(matches!(InlineQueryResult::article(1, "", "x"), Err(BotError::InternalError(m)) if m == "Invalid inline query request"));
    assert!(matches!(InlineQueryResult::article(1, "t", ""), Err(BotError::InternalError(_))));
    match InlineQueryResult::article(5, "Title", "Body") {
        Ok(InlineQueryResult::Article(a)) => {
            assert_eq!(a.query_type, "article");
            assert_eq!(a.id, 5);
            assert_eq!(a.title, "Title");
            match a.input_message_content {
                InputMessageContent::Text(t) => {
                    assert_eq!(t.message_text, "Body");
                    assert!(!t.disable_web_page_preview);
                }
                _ => panic!("expected a text"),
            }
        }
        _ => panic!("expected an article"),
    }
}

#[test]
fn voice_with_and_without_recording() {
    let url = String::from("https://x/y.ogg");
    match InlineQueryResult::voice(2, "T", "cap", Some(&url)) {
        Ok(InlineQueryResult::Voice(v)) => {
            assert_eq!(v.query_type, "voice");
            assert_eq!(v.id, 2);
            assert_eq!(v.voice_url, url);
            assert_eq!(v.title, "T");
            assert_eq!(v.caption.as_deref(), Some("cap"));
        }
        _ => panic!("expected a voice"),
    }
    assert!(matches!(InlineQueryResult::voice(2, "T", "cap", None), Ok(InlineQueryResult::Article(_))));
    assert!(InlineQueryResult::voice(2, "T", "", None).is_err());
    assert!(InlineQueryResult::voice(2, "", "cap", Some(&url)).is_err());
    assert!(InlineQueryResult::voice(2, "T", "", Some(&url)).is_ok());
}

fn id_of(r: &InlineQueryResult) -> u8 {
    match r {
        InlineQueryResult::Article(a) => a.id,
        InlineQueryResult::Voice(v) => v.id,
    }
}

#[test]
fn inline_results_are_numbered_by_request() {
    let reqs = vec![
        InlineRequest::Voice {
            title: String::from("Definition"),
            caption: String::from("text"),
            voice_url: Some(String::from("https://a")),
        },
        InlineRequest::Voice { title: String::from("Pron"), caption: String::new(), voice_url: None },
        InlineRequest::Article { title: String::from("A"), responce: String::from("B") },
    ];
    let res = inline_query_results(reqs);
    assert_eq!(res.len(), 2);
    assert_eq!(id_of(&res[0]), 1);
    assert_eq!(id_of(&res[1]), 3);
    assert!(matches!(res[0], InlineQueryResult::Voice(_)));
    assert!(matches!(res[1], InlineQueryResult::Article(_)));
}

#[test]
fn keyboard_has_one_button_per_pair() {
    let keys = vec![
        vec![(String::from("apple"), String::from("apple"))],
        vec![(String::from("a"), String::from("1")), (String::from("b"), String::from("2"))],
    ];
    let ReplyMarkup::InlineKeyboard(m) = ReplyMarkup::inline_keyboard_markup(keys);
    assert_eq!(m.inline_keyboard.len(), 2);
    assert_eq!(m.inline_keyboard[1].len(), 2);
    assert_eq!(m.inline_keyboard[1][1].text, "b");
    assert_eq!(m.inline_keyboard[1][1].callback_data.as_deref(), Some("2"));
    assert!(m.inline_keyboard[0][0].url.is_none());
}

#[test]
fn addresses_of_the_chat_service() {
    assert_eq!(get_me_url("TOKEN"), "https://api.telegram.org/botTOKEN/getMe");
    assert_eq!(bot().updates_url(0), "https://api.telegram.org/botTOKEN/getUpdates?offset=1");
    assert_eq!(bot().updates_url(41), "https://api.telegram.org/botTOKEN/getUpdates?offset=42");
}

#[test]
fn last_update_id_is_that_of_last_update() {
    assert_eq!(last_update_id(5, &Vec::new()), 5);
    assert_eq!(last_update_id(5, &vec![text_update(9, None), text_update(12, None)]), 12);
}

#[test]
fn text_request_carries_message() {
    let r = text_request("TOKEN", 42, "hello", Some("markdownv2"), None);
    assert_eq!(r.url, "https://api.telegram.org/botTOKEN/sendMessage");
    assert_eq!(r.body.chat_id, 42);
    assert_eq!(r.body.text, "hello");
    assert_eq!(r.body.parse_mode.as_deref(), Some("markdownv2"));
    assert!(r.body.reply_markup.is_none());
}

#[test]
fn empty_recording_is_sent_as_text() {
    match voice_request("TOKEN", 42, Vec::new(), "caption", None, None) {
        VoiceRequest::Text(t) => {
            assert_eq!(t.url, "https://api.telegram.org/botTOKEN/sendMessage");
            assert_eq!(t.body.text, "caption");
        }
        VoiceRequest::Voice(_) => panic!("expected a text"),
    }
}

#[test]
fn recording_is_sent_as_form() {
    match voice_request("TOKEN", 1895656874, vec![1, 2, 3], "caption", None, None) {
        VoiceRequest::Voice(m) => {
            assert_eq!(m.url, "https://api.telegram.org/botTOKEN/sendVoice");
            assert_eq!(m.fields[0], (String::from("chat_id"), String::from("1895656874")));
            assert_eq!(m.fields[1], (String::from("caption"), String::from("caption")));
            let f = m.file.unwrap();
            assert_eq!(f.field, "voice");
            assert_eq!(f.bytes, vec![1, 2, 3]);
            assert_eq!(f.file_name, "voice.ogg");
            assert_eq!(f.mime, "audio/ogg");
        }
        VoiceRequest::Text(_) => panic!("expected a form"),
    }
}

#[test]
fn audio_and_photo_forms() {
    let a = audio_request("T", 5, "https://a.ogg", "cap");
    assert_eq!(a.url, "https://api.telegram.org/botT/sendAudio");
    assert_eq!(a.fields.len(), 3);
    assert_eq!(a.fields[2], (String::from("audio"), String::from("https://a.ogg")));
    assert!(a.file.is_none());
    let p = photo_request("T", 5, vec![9]);
    assert_eq!(p.url, "https://api.telegram.org/botT/sendVoice");
    assert_eq!(p.fields, vec![(String::from("chat_id"), String::from("5"))]);
    let f = p.file.unwrap();
    assert_eq!((f.field.as_str(), f.file_name.as_str(), f.mime.as_str()), ("photo", "some_img.jpg", "image/jpeg"));
}

#[test]
fn answer_request_carries_results() {
    let res = inline_query_results(vec![InlineRequest::Article {
        title: String::from("A"),
        responce: String::from("B"),
    }]);
    let r = answer_request("T", String::from("q1"), res);
    assert_eq!(r.url, "https://api.telegram.org/botT/answerInlineQuery");
    assert_eq!(r.body.inline_query_id, "q1");
    assert_eq!(r.body.results.len(), 1);
}

#[test]
fn reply_status_is_judged() {
    assert!(send_outcome(200).is_ok());
    assert!(send_outcome(299).is_ok());
    assert!(matches!(send_outcome(500), Err(BotError::ServerError)));
    assert!(matches!(send_outcome(599), Err(BotError::ServerError)));
    match send_outcome(404) {
        Err(BotError::NetworkError(t)) => assert_eq!(t, "404 Not Found"),
        _ => panic!("expected a network error"),
    }
    match send_outcome(799) {
        Err(BotError::NetworkError(t)) => assert_eq!(t, "799 <unknown status code>"),
        _ => panic!("expected a network error"),
    }
}

#[test]
fn fallback_reply_goes_to_fixed_chat() {
    let b = bot();
    let r = b.fallback_request(text_update(1, Some("hi")));
    assert_eq!(r.url, "https://api.telegram.org/botTOKEN/sendMessage");
    assert_eq!(r.body.chat_id, 1895656874);
    assert_eq!(r.body.text.as_ref().unwrap().text.as_deref(), Some("hi"));
    assert!(r.body.parse_mode.is_none());
    match r.body.reply_markup {
        Some(ReplyMarkup::InlineKeyboard(k)) => {
            assert_eq!(k.inline_keyboard[0][0].text, "abcdd");
            assert_eq!(k.inline_keyboard[0][0].callback_data.as_deref(), Some("test_app_bot"));
        }
        None => panic!("expected a keyboard"),
    }
}

#[test]
fn known_bot_gives_client() {
    match Telebotapi::<Handler>::new("KEY", true) {
        Ok(b) => {
            assert_eq!(b.api, "KEY");
            assert!(b.handle.is_none());
        }
        Err(_) => panic!("expected a client"),
    }
}

#[test]
fn poll_offsets_follow_batches() {
    let b = bot();
    let mut last = 0u64;
    assert_eq!(b.updates_url(last), "https://api.telegram.org/botTOKEN/getUpdates?offset=1");
    last = last_update_id(last, &vec![text_update(10, None), text_update(11, None)]);
    assert_eq!(b.updates_url(last), "https://api.telegram.org/botTOKEN/getUpdates?offset=12");
    last = last_update_id(last, &Vec::new());
    assert_eq!(b.updates_url(last), "https://api.telegram.org/botTOKEN/getUpdates?offset=12");
}
