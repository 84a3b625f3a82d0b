//! What the bot answers after a lookup: in a chat, and to an inline query.
use vstd::prelude::*;
use crate::botlib::ReplyMarkup;
use crate::botlib::results::InlineRequest;
use crate::dictionary::{before_colon, display_text, WordFinder};

verus! {

/// The answer in a chat to a looked-up text.
pub enum LookupReply {
    /// Send the entry's text, with its recording where one can be fetched.
    Entry { caption: String },
    /// Offer the suggestions, one button each.
    Suggestions { text: String, keyboard: ReplyMarkup },
    /// Say that the word is not in the dictionary.
    NotFound { caption: String },
}

/// `k` has one row per suggestion, each with one button that shows the
/// suggestion and reports it when pressed.
pub open spec fn is_suggestion_keyboard(k: ReplyMarkup, words: Seq<String>) -> bool {
    &&& k matches ReplyMarkup::InlineKeyboard(m)
    &&& m.inline_keyboard@.len() == words.len()
    &&& forall|i: int|
        0 <= i < words.len() ==> {
            &&& (#[trigger] m.inline_keyboard@[i])@.len() == 1
            &&& m.inline_keyboard@[i]@[0].text@ == words[i]@
            &&& m.inline_keyboard@[i]@[0].callback_data.deep_view() == Some(words[i]@)
            &&& m.inline_keyboard@[i]@[0].url is None
        }
}

/// The text that presents a word entry.
pub open spec fn entry_text(f: WordFinder) -> Seq<char> {
    display_text(f.word@, f.pronunciation.deep_view(), f.definition.deep_view())
}

/// The answer in a chat to `text`, given what looking it up gave: the entry's
/// text; the suggestions, where there are some; else a note that the word is
/// not in the dictionary.
pub fn reply_for_lookup(text: &str, outcome: &Result<WordFinder, Vec<String>>) -> (res: LookupReply)
    ensures
        match outcome {
            Ok(f) => res matches LookupReply::Entry { caption } && caption@ == entry_text(*f),
            Err(v) => if v@.len() > 0 {
                &&& res matches LookupReply::Suggestions { text: t, keyboard }
                &&& t@ == "Word not found. Here are similar words"@
                &&& is_suggestion_keyboard(keyboard, v@)
            } else {
                &&& res matches LookupReply::NotFound { caption }
                &&& caption@ == "Word: "@ + text@ + " not found in english dictionary"@
            },
        },
{
    match outcome {
        Ok(f) => LookupReply::Entry { caption: f.to_display_string() },
        Err(words) => {
            if words.len() == 0 {
                let mut caption = String::from_str("Word: ");
                caption.append(text);
                caption.append(" not found in english dictionary");
                return LookupReply::NotFound { caption };
            }
            let n = words.len();
            let mut keys: Vec<Vec<(String, String)>> = Vec::new();
            let mut i: usize = 0;
            while i < n
                invariant
                    i <= n,
                    n == words@.len(),
                    keys@.len() == i,
                    forall|a: int|
                        0 <= a < i ==> {
                            &&& (#[trigger] keys@[a])@.len() == 1
                            &&& keys@[a]@[0].0 == words@[a]
                            &&& keys@[a]@[0].1 == words@[a]
                        },
                decreases n - i,
            {
                let mut row: Vec<(String, String)> = Vec::new();
                row.push((words[i].clone(), words[i].clone()));
                keys.push(row);
                i = i + 1;
            }
            let keyboard = ReplyMarkup::inline_keyboard_markup(keys);
            LookupReply::Suggestions {
                text: String::from_str("Word not found. Here are similar words"),
                keyboard,
            }
        },
    }
}

/// The next step in answering an inline query, given what looking it up gave.
pub enum InlineStep {
    /// Answer with these results.
    Answer(Vec<InlineRequest>),
    /// Look this suggestion up, then answer with `answer_for_suggestion`.
    LookUp(String),
}

/// `qs` offers, under `title`, the recording at `link` (or `text` where there
/// is none), then the recording alone under "It's pronounciation".
pub open spec fn is_inline_answer(
    qs: Seq<InlineRequest>,
    title: Seq<char>,
    text: Seq<char>,
    link: Option<Seq<char>>,
) -> bool {
    &&& qs.len() == 2
    &&& qs[0] matches InlineRequest::Voice { title: t0, caption: c0, voice_url: u0 }
    &&& t0@ == title
    &&& c0@ == text
    &&& u0.deep_view() == link
    &&& qs[1] matches InlineRequest::Voice { title: t1, caption: c1, voice_url: u1 }
    &&& t1@ == "It's pronounciation"@
    &&& c1@.len() == 0
    &&& u1.deep_view() == link
}

/// The two results of an inline answer (see `is_inline_answer`).
fn inline_answer(title: String, text: String, link: Option<String>) -> (res: Vec<InlineRequest>)
    ensures
        is_inline_answer(res@, title@, text@, link.deep_view()),
{
    let second_link = match &link {
        Some(l) => Some(l.clone()),
        None => None,
    };
    let mut res: Vec<InlineRequest> = Vec::new();
    res.push(InlineRequest::Voice { title, caption: text, voice_url: link });
    let empty = String::new();
    res.push(
        InlineRequest::Voice {
            title: String::from_str("It's pronounciation"),
            caption: empty,
            voice_url: second_link,
        },
    );
    res
}

/// The next step in answering an inline query: for an entry, its definition
/// and recording; for suggestions, a lookup of the first one; else "No word
/// found".
pub fn inline_step(outcome: &Result<WordFinder, Vec<String>>) -> (res: InlineStep)
    ensures
        match outcome {
            Ok(f) => res matches InlineStep::Answer(qs) && is_inline_answer(
                qs@,
                "Definition of word "@ + before_colon(f.word@),
                entry_text(*f),
                f.audio_link.deep_view(),
            ),
            Err(v) => if v@.len() > 0 {
                res matches InlineStep::LookUp(w) && w@ == v@[0]@
            } else {
                res matches InlineStep::Answer(qs) && is_inline_answer(
                    qs@,
                    "No word found"@,
                    "No word found"@,
                    None,
                )
            },
        },
{
    match outcome {
        Ok(f) => {
            let mut title = String::from_str("Definition of word ");
            let w = f.get_word();
            title.append(w.as_str());
            InlineStep::Answer(inline_answer(title, f.to_display_string(), f.get_audio_link()))
        },
        Err(words) => {
            if words.len() > 0 {
                InlineStep::LookUp(words[0].clone())
            } else {
                InlineStep::Answer(
                    inline_answer(
                        String::from_str("No word found"),
                        String::from_str("No word found"),
                        None,
                    ),
                )
            }
        },
    }
}

/// The answer to an inline query whose word was not found, once the first
/// suggestion `suggestion` was looked up and gave `found`.
pub fn answer_for_suggestion(suggestion: &str, found: &WordFinder) -> (res: Vec<InlineRequest>)
    ensures
        is_inline_answer(res@, "Definition for word "@ + suggestion@, entry_text(*found), None),
{
    let mut title = String::from_str("Definition for word ");
    title.append(suggestion);
    inline_answer(title, found.to_display_string(), None)
}

} // verus!
