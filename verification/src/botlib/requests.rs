//! The requests that the bot sends to the chat service, described as plain
//! values, and how their replies are judged.
use vstd::prelude::*;
use super::{BotError, Telebotapi};
use super::datatypes::{
    AnswerInlineQuery, BotUpdate, InlineKeyboardButton, InlineKeyboardMarkup, InlineQueryResult,
    Message, ReplyMarkup, SendMessage,
};
use crate::text::{decimal, u64_to_decimal};

verus! {

/// The address of the chat service, up to the bot's key.
pub open spec fn api_base() -> Seq<char> {
    "https://api.telegram.org/bot"@
}

/// The address of `method` for the bot with key `api`.
pub open spec fn method_url(api: Seq<char>, method: Seq<char>) -> Seq<char> {
    api_base() + api + seq!['/'] + method
}

/// A request that posts `body` as JSON to `url`.
pub struct JsonPost<T> {
    pub url: String,
    pub body: T,
}

/// A file attached to a form.
pub struct FilePart {
    pub field: String,
    pub bytes: Vec<u8>,
    pub file_name: String,
    pub mime: String,
}

/// A request that posts a form of text fields and, possibly, a file to `url`.
pub struct MultipartPost {
    pub url: String,
    pub fields: Vec<(String, String)>,
    pub file: Option<FilePart>,
}

/// How a recording is sent: as a text when there is no recording, else as a form.
pub enum VoiceRequest {
    Text(JsonPost<SendMessage<String>>),
    Voice(MultipartPost),
}

/// The address of `method` for the bot with key `api`.
fn method_address(api: &str, method: &str) -> (res: String)
    ensures
        res@ == method_url(api@, method@),
{
    let mut url = String::from_str("https://api.telegram.org/bot");
    url.append(api);
    url.append("/");
    url.append(method);
    proof {
        reveal_strlit("/");
        assert(url@ =~= method_url(api@, method@));
    }
    url
}

/// A text field of a form.
fn field(name: &str, value: &str) -> (res: (String, String))
    ensures
        res.0@ == name@,
        res.1@ == value@,
{
    (String::from_str(name), String::from_str(value))
}

/// The address that checks the bot's key.
pub fn get_me_url(api: &str) -> (res: String)
    ensures
        res@ == method_url(api@, "getMe"@),
{
    method_address(api, "getMe")
}

/// `t` posts `text` to chat `chat_id` with the given parse mode and controls.
pub open spec fn is_text_post(
    t: JsonPost<SendMessage<String>>,
    api: Seq<char>,
    chat_id: u64,
    text: Seq<char>,
    parse_mode: Option<Seq<char>>,
    reply_markup: Option<ReplyMarkup>,
) -> bool {
    &&& t.url@ == method_url(api, "sendMessage"@)
    &&& t.body.chat_id == chat_id
    &&& t.body.text@ == text
    &&& t.body.parse_mode.deep_view() == parse_mode
    &&& t.body.reply_markup == reply_markup
}

/// `m` is the form that sends recording `voice` with `caption` to chat `chat_id`.
pub open spec fn is_voice_form(
    m: MultipartPost,
    api: Seq<char>,
    chat_id: u64,
    caption: Seq<char>,
    voice: Seq<u8>,
) -> bool {
    &&& m.url@ == method_url(api, "sendVoice"@)
    &&& m.fields@.len() == 2
    &&& m.fields@[0].0@ == "chat_id"@
    &&& m.fields@[0].1@ == decimal(chat_id as nat)
    &&& m.fields@[1].0@ == "caption"@
    &&& m.fields@[1].1@ == caption
    &&& m.file matches Some(f)
    &&& f.field@ == "voice"@
    &&& f.bytes@ == voice
    &&& f.file_name@ == "voice.ogg"@
    &&& f.mime@ == "audio/ogg"@
}

/// The request that sends `text` to chat `chat_id`.
pub fn text_request(
    api: &str,
    chat_id: u64,
    text: &str,
    parse_mode: Option<&str>,
    reply_markup: Option<ReplyMarkup>,
) -> (res: JsonPost<SendMessage<String>>)
    ensures
        is_text_post(res, api@, chat_id, text@, parse_mode.deep_view(), reply_markup),
{
    let parse_mode = match parse_mode {
        Some(p) => Some(String::from_str(p)),
        None => None,
    };
    JsonPost {
        url: method_address(api, "sendMessage"),
        body: SendMessage { chat_id, text: String::from_str(text), reply_markup, parse_mode },
    }
}

/// The request that sends recording `voice` with `caption` to chat `chat_id`; an
/// empty recording sends the caption as a text instead.
pub fn voice_request(
    api: &str,
    chat_id: u64,
    voice: Vec<u8>,
    caption: &str,
    parse_mode: Option<&str>,
    reply_markup: Option<ReplyMarkup>,
) -> (res: VoiceRequest)
    ensures
        voice@.len() == 0 ==> (res matches VoiceRequest::Text(t) && is_text_post(
            t,
            api@,
            chat_id,
            caption@,
            parse_mode.deep_view(),
            reply_markup,
        )),
        voice@.len() > 0 ==> (res matches VoiceRequest::Voice(m) && is_voice_form(
            m,
            api@,
            chat_id,
            caption@,
            voice@,
        )),
{
    if voice.len() == 0 {
        return VoiceRequest::Text(text_request(api, chat_id, caption, parse_mode, reply_markup));
    }
    let id = u64_to_decimal(chat_id);
    let mut fields: Vec<(String, String)> = Vec::new();
    fields.push(field("chat_id", id.as_str()));
    fields.push(field("caption", caption));
    VoiceRequest::Voice(
        MultipartPost {
            url: method_address(api, "sendVoice"),
            fields,
            file: Some(
                FilePart {
                    field: String::from_str("voice"),
                    bytes: voice,
                    file_name: String::from_str("voice.ogg"),
                    mime: String::from_str("audio/ogg"),
                },
            ),
        },
    )
}

/// The request that sends the recording at address `audio` with `caption` to
/// chat `chat_id`.
pub fn audio_request(api: &str, chat_id: u64, audio: &str, caption: &str) -> (res: MultipartPost)
    ensures
        res.url@ == method_url(api@, "sendAudio"@),
        res.fields@.len() == 3,
        res.fields@[0].0@ == "chat_id"@,
        res.fields@[0].1@ == decimal(chat_id as nat),
        res.fields@[1].0@ == "caption"@,
        res.fields@[1].1@ == caption@,
        res.fields@[2].0@ == "audio"@,
        res.fields@[2].1@ == audio@,
        res.file is None,
{
    let id = u64_to_decimal(chat_id);
    let mut fields: Vec<(String, String)> = Vec::new();
    fields.push(field("chat_id", id.as_str()));
    fields.push(field("caption", caption));
    fields.push(field("audio", audio));
    MultipartPost { url: method_address(api, "sendAudio"), fields, file: None }
}

/// The request that sends picture `photo` to chat `chat_id` (posted to the
/// address for recordings).
pub fn photo_request(api: &str, chat_id: u64, photo: Vec<u8>) -> (res: MultipartPost)
    ensures
        res.url@ == method_url(api@, "sendVoice"@),
        res.fields@.len() == 1,
        res.fields@[0].0@ == "chat_id"@,
        res.fields@[0].1@ == decimal(chat_id as nat),
        res.file matches Some(f) && f.field@ == "photo"@ && f.bytes@ == photo@ && f.file_name@
            == "some_img.jpg"@ && f.mime@ == "image/jpeg"@,
{
    let id = u64_to_decimal(chat_id);
    let mut fields: Vec<(String, String)> = Vec::new();
    fields.push(field("chat_id", id.as_str()));
    MultipartPost {
        url: method_address(api, "sendVoice"),
        fields,
        file: Some(
            FilePart {
                field: String::from_str("photo"),
                bytes: photo,
                file_name: String::from_str("some_img.jpg"),
                mime: String::from_str("image/jpeg"),
            },
        ),
    }
}

/// The request that answers inline query `inline_query_id` with `results`.
pub fn answer_request(api: &str, inline_query_id: String, results: Vec<InlineQueryResult>) -> (res:
    JsonPost<AnswerInlineQuery>)
    ensures
        res.url@ == method_url(api@, "answerInlineQuery"@),
        res.body.inline_query_id == inline_query_id,
        res.body.results == results,
{
    JsonPost {
        url: method_address(api, "answerInlineQuery"),
        body: AnswerInlineQuery { inline_query_id, results },
    }
}

/// The text of HTTP status `code`'s reason phrase, or "<unknown status code>"
/// where it has none (as `reqwest::StatusCode` gives it).
pub uninterp spec fn status_reason(code: u16) -> Seq<char>;

/// Calls `reqwest::StatusCode::from_u16(code)` and its `to_string`; the contract
/// claims what the source of its `Display` shows, the code in decimal, a space,
/// then the reason phrase, which it names `status_reason(code)` and leaves unstated.
#[verifier::external_body]
fn status_text(code: u16) -> (res: String)
    requires
        100 <= code <= 999,
    ensures
        res@ == decimal(code as nat) + seq![' '] + status_reason(code),
{
    match reqwest::StatusCode::from_u16(code) {
        Ok(c) => c.to_string(),
        Err(_) => String::new(),
    }
}

/// How a reply with HTTP status `status` is judged: a success (200 to 299) is
/// `Ok`; a server error (500 to 599) is `ServerError`; any other status is a
/// `NetworkError` that carries the status text.
pub fn send_outcome(status: u16) -> (res: Result<(), BotError>)
    requires
        100 <= status <= 999,
    ensures
        200 <= status < 300 <==> res is Ok,
        500 <= status < 600 <==> res matches Err(BotError::ServerError),
        !(200 <= status < 300) && !(500 <= status < 600) ==> (res matches Err(
            BotError::NetworkError(t),
        ) && t@ == decimal(status as nat) + seq![' '] + status_reason(status)),
{
    if 200 <= status && status < 300 {
        Ok(())
    } else if 500 <= status && status < 600 {
        Err(BotError::ServerError)
    } else {
        Err(BotError::NetworkError(status_text(status)))
    }
}

/// The id of the last update seen after a batch: that of the batch's last
/// update, or `last` where the batch is empty.
pub open spec fn next_last_seen(last: nat, batch: Seq<BotUpdate>) -> nat {
    if batch.len() == 0 {
        last
    } else {
        batch.last().update_id as nat
    }
}

/// The id of the last update seen after the first `k` batches, starting from 0.
pub open spec fn last_seen_after(batches: Seq<Seq<BotUpdate>>, k: int) -> nat
    decreases k,
{
    if k <= 0 {
        0
    } else {
        next_last_seen(last_seen_after(batches, k - 1), batches[k - 1])
    }
}

/// The offset of the `k`-th request for updates (counting from 0), when the
/// replies so far gave `batches`: one past the last update seen.
pub open spec fn poll_offset(batches: Seq<Seq<BotUpdate>>, k: int) -> nat {
    last_seen_after(batches, k) + 1
}

/// Law: the first request for updates asks from offset 1; each next one asks
/// from the same offset after an empty batch, else from one past the id of the
/// batch's last update.
pub proof fn lemma_poll_offsets(batches: Seq<Seq<BotUpdate>>, k: int)
    requires
        0 <= k < batches.len(),
    ensures
        poll_offset(batches, 0) == 1,
        poll_offset(batches, k + 1) == if batches[k].len() == 0 {
            poll_offset(batches, k) as int
        } else {
            batches[k].last().update_id + 1
        },
{
}

/// The id of the last update seen: that of the last of `updates`, or `last_msg`
/// where there are none.
pub fn last_update_id(last_msg: u64, updates: &Vec<BotUpdate>) -> (res: u64)
    ensures
        res == next_last_seen(last_msg as nat, updates@),
{
    if updates.len() > 0 {
        updates[updates.len() - 1].update_id
    } else {
        last_msg
    }
}

/// The chat that the fixed reply goes to.
pub open spec fn fallback_chat() -> u64 {
    1895656874
}

impl<H> Telebotapi<H> {
    /// The address that asks for the updates after `last_msg`.
    pub fn updates_url(&self, last_msg: u64) -> (res: String)
        requires
            last_msg < u64::MAX,
        ensures
            res@ == method_url(self.api@, "getUpdates?offset="@) + decimal((last_msg + 1) as nat),
    {
        let mut url = method_address(self.api.as_str(), "getUpdates?offset=");
        crate::text::push_decimal(&mut url, last_msg + 1);
        url
    }

    /// The fixed reply of a bot without handlers: it sends the update's message,
    /// with one button, to a fixed chat.
    pub fn fallback_request(&self, update: BotUpdate) -> (res: JsonPost<SendMessage<Option<Message>>>)
        ensures
            res.url@ == method_url(self.api@, "sendMessage"@),
            res.body.chat_id == fallback_chat(),
            res.body.text == update.message,
            res.body.parse_mode is None,
            res.body.reply_markup matches Some(ReplyMarkup::InlineKeyboard(k))
                && k.inline_keyboard@.len() == 1 && k.inline_keyboard@[0]@.len() == 1
                && k.inline_keyboard@[0]@[0].text@ == "abcdd"@
                && k.inline_keyboard@[0]@[0].callback_data.deep_view() == Some("test_app_bot"@)
                && k.inline_keyboard@[0]@[0].url is None,
    {
        let button = InlineKeyboardButton {
            text: String::from_str("abcdd"),
            callback_data: Some(String::from_str("test_app_bot")),
            url: None,
        };
        let mut row: Vec<InlineKeyboardButton> = Vec::new();
        row.push(button);
        let mut rows: Vec<Vec<InlineKeyboardButton>> = Vec::new();
        rows.push(row);
        JsonPost {
            url: method_address(self.api.as_str(), "sendMessage"),
            body: SendMessage {
                chat_id: 1895656874,
                text: update.message,
                reply_markup: Some(ReplyMarkup::InlineKeyboard(InlineKeyboardMarkup { inline_keyboard: rows })),
                parse_mode: None,
            },
        }
    }
}

} // verus!
