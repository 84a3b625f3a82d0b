//! The values that the bot receives from and sends to the chat service.
use vstd::prelude::*;

verus! {

/// One update that the chat service reports.
#[derive(Clone)]
pub struct BotUpdate {
    pub update_id: u64,
    pub message: Option<Message>,
    pub inline_query: Option<InlineQuery>,
    pub callback_query: Option<CallBackQuery>,
}

/// A chat message.
#[derive(Clone)]
pub struct Message {
    pub message_id: u64,
    pub date: u64,
    pub chat: Chat,
    pub text: Option<String>,
}

/// The chat that a message belongs to.
#[derive(Clone)]
pub struct Chat {
    pub id: u64,
    pub chat_type: String,
}

/// A user of the chat service.
#[derive(Clone)]
pub struct User {
    pub id: u64,
    pub is_bot: bool,
    pub first_name: String,
    pub last_name: Option<String>,
    pub username: Option<String>,
    pub language_code: Option<String>,
}

/// A query typed in inline mode.
#[derive(Clone)]
pub struct InlineQuery {
    pub id: String,
    pub from: User,
    pub query: String,
    pub offset: String,
    pub chat_type: Option<String>,
}

/// The answer to an inline query.
pub struct AnswerInlineQuery {
    pub inline_query_id: String,
    pub results: Vec<InlineQueryResult>,
}

/// One result offered for an inline query.
pub enum InlineQueryResult {
    Article(InlineQueryResultArticle),
    Voice(InlineQueryResultVoice),
}

/// A result that sends a text.
pub struct InlineQueryResultArticle {
    pub query_type: String,
    pub id: u8,
    pub title: String,
    pub input_message_content: InputMessageContent,
}

/// A result that sends a recording.
pub struct InlineQueryResultVoice {
    pub query_type: String,
    pub id: u8,
    pub voice_url: String,
    /// Name of the recording.
    pub title: String,
    pub caption: Option<String>,
}

/// A press on an inline keyboard button.
#[derive(Clone)]
pub struct CallBackQuery {
    pub id: String,
    pub from: User,
    pub message: Option<Message>,
    pub inline_message_id: Option<String>,
    pub chat_instance: String,
    pub data: Option<String>,
}

/// What an article result sends.
pub enum InputMessageContent {
    Text(InputTextMessageContent),
    Location,
    Venue,
    Contact,
    Invoice,
}

/// A text to send.
pub struct InputTextMessageContent {
    pub message_text: String,
    pub disable_web_page_preview: bool,
}

/// A message to send to a chat.
pub struct SendMessage<T> {
    pub chat_id: u64,
    pub text: T,
    pub reply_markup: Option<ReplyMarkup>,
    pub parse_mode: Option<T>,
}

/// Extra controls attached to a sent message.
pub enum ReplyMarkup {
    InlineKeyboard(InlineKeyboardMarkup),
}

/// Rows of buttons under a message.
pub struct InlineKeyboardMarkup {
    pub inline_keyboard: Vec<Vec<InlineKeyboardButton>>,
}

/// One button of an inline keyboard.
pub struct InlineKeyboardButton {
    pub text: String,
    pub url: Option<String>,
    pub callback_data: Option<String>,
}

} // verus!
