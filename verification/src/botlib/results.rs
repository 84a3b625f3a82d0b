//! Building the results offered for an inline query, and inline keyboards.
use vstd::prelude::*;
use super::BotError;
use super::datatypes::{
    InlineKeyboardButton, InlineKeyboardMarkup, InlineQueryResult, InlineQueryResultArticle,
    InlineQueryResultVoice, InputMessageContent, InputTextMessageContent, ReplyMarkup,
};

verus! {

/// The error given for a result that lacks a title or a text.
pub open spec fn is_invalid_request_error(e: BotError) -> bool {
    e matches BotError::InternalError(m) && m@ == "Invalid inline query request"@
}

/// `r` is the article result `id` with title `title` that sends `text`.
pub open spec fn is_article(r: InlineQueryResult, id: u8, title: Seq<char>, text: Seq<char>) -> bool {
    &&& r matches InlineQueryResult::Article(a)
    &&& a.query_type@ == "article"@
    &&& a.id == id
    &&& a.title@ == title
    &&& a.input_message_content matches InputMessageContent::Text(t)
    &&& t.message_text@ == text
    &&& !t.disable_web_page_preview
}

/// `r` is the voice result `id` with title `title` that sends the recording at
/// `url` with caption `caption`.
pub open spec fn is_voice(
    r: InlineQueryResult,
    id: u8,
    title: Seq<char>,
    url: Seq<char>,
    caption: Seq<char>,
) -> bool {
    &&& r matches InlineQueryResult::Voice(v)
    &&& v.query_type@ == "voice"@
    &&& v.id == id
    &&& v.title@ == title
    &&& v.voice_url@ == url
    &&& v.caption.deep_view() == Some(caption)
}

/// A request for one inline result, as the `inline_query!` list of the bot names them.
pub enum InlineRequest {
    Article { title: String, responce: String },
    Voice { title: String, caption: String, voice_url: Option<String> },
}

/// Whether a request gives a result rather than an error.
pub open spec fn request_valid(q: InlineRequest) -> bool {
    match q {
        InlineRequest::Article { title, responce } => title@.len() > 0 && responce@.len() > 0,
        InlineRequest::Voice { title, caption, voice_url } => title@.len() > 0 && (voice_url is Some
            || caption@.len() > 0),
    }
}

/// `r` is the result that request `q` gives with id `id`.
pub open spec fn result_for(q: InlineRequest, id: u8, r: InlineQueryResult) -> bool {
    match q {
        InlineRequest::Article { title, responce } => is_article(r, id, title@, responce@),
        InlineRequest::Voice { title, caption, voice_url } => match voice_url {
            Some(u) => is_voice(r, id, title@, u@, caption@),
            None => is_article(r, id, title@, caption@),
        },
    }
}

/// The id of a result.
pub open spec fn result_id(r: InlineQueryResult) -> u8 {
    match r {
        InlineQueryResult::Article(a) => a.id,
        InlineQueryResult::Voice(v) => v.id,
    }
}

/// The positions, below `n`, of the requests that give a result.
pub open spec fn valid_positions(qs: Seq<InlineRequest>, n: int) -> Seq<int>
    decreases n,
{
    if n <= 0 {
        Seq::empty()
    } else if request_valid(qs[n - 1]) {
        valid_positions(qs, n - 1).push(n - 1)
    } else {
        valid_positions(qs, n - 1)
    }
}

/// Law: the positions of the valid requests rise strictly and lie below `n`.
pub proof fn lemma_valid_positions(qs: Seq<InlineRequest>, n: int)
    requires
        0 <= n,
    ensures
        forall|t: int|
            0 <= t < valid_positions(qs, n).len() ==> 0 <= #[trigger] valid_positions(qs, n)[t] < n
                && request_valid(qs[valid_positions(qs, n)[t]]),
        forall|t: int, u: int|
            0 <= t < u < valid_positions(qs, n).len() ==> #[trigger] valid_positions(qs, n)[t]
                < #[trigger] valid_positions(qs, n)[u],
    decreases n,
{
    if n > 0 {
        lemma_valid_positions(qs, n - 1);
        let prev = valid_positions(qs, n - 1);
        let cur = valid_positions(qs, n);
        if request_valid(qs[n - 1]) {
            assert(cur == prev.push(n - 1));
            assert forall|t: int| 0 <= t < cur.len() implies 0 <= #[trigger] cur[t] < n
                && request_valid(qs[cur[t]]) by {
                if t < prev.len() {
                    assert(cur[t] == prev[t]);
                }
            }
            assert forall|t: int, u: int| 0 <= t < u < cur.len() implies #[trigger] cur[t]
                < #[trigger] cur[u] by {
                assert(cur[t] == prev[t]);
                if u < prev.len() {
                    assert(cur[u] == prev[u]);
                }
            }
        }
    }
}

/// The positions of the valid requests hold every valid request.
proof fn lemma_valid_positions_complete(qs: Seq<InlineRequest>, n: int, i: int)
    requires
        0 <= i < n,
        request_valid(qs[i]),
    ensures
        valid_positions(qs, n).contains(i),
    decreases n,
{
    if i < n - 1 {
        lemma_valid_positions_complete(qs, n - 1, i);
        let prev = valid_positions(qs, n - 1);
        let t = choose|t: int| 0 <= t < prev.len() && prev[t] == i;
        if request_valid(qs[n - 1]) {
            assert(valid_positions(qs, n)[t] == i);
        }
    } else {
        let cur = valid_positions(qs, n);
        assert(cur[cur.len() - 1] == i);
    }
}

/// Law: of the results built for requests `qs` (as `inline_query_results` gives
/// them), a request with a title that has a recording, or a non-empty text, is
/// kept: some result has its number `i + 1`, a voice result for a recording and
/// an article otherwise; a request without a title, or without both a recording
/// and a text, gives no result; and the numbers rise.
pub proof fn lemma_inline_results_kept(qs: Seq<InlineRequest>, res: Seq<InlineQueryResult>)
    requires
        qs.len() < 255,
        res.len() == valid_positions(qs, qs.len() as int).len(),
        forall|t: int|
            0 <= t < res.len() ==> {
                let p = #[trigger] valid_positions(qs, qs.len() as int)[t];
                result_for(qs[p], (p + 1) as u8, res[t])
            },
    ensures
        forall|i: int|
            0 <= i < qs.len() ==> match #[trigger] qs[i] {
                InlineRequest::Article { title, responce } => (title@.len() > 0 && responce@.len()
                    > 0) <==> exists|t: int|
                    0 <= t < res.len() && result_id(res[t]) == i + 1 && res[t] is Article,
                InlineRequest::Voice { title, caption, voice_url } => (title@.len() > 0 && (
                voice_url is Some || caption@.len() > 0)) <==> exists|t: int|
                    0 <= t < res.len() && result_id(res[t]) == i + 1 && (voice_url is Some
                        <==> res[t] is Voice),
            },
        forall|t: int, w: int|
            0 <= t < w < res.len() ==> #[trigger] result_id(res[t]) < #[trigger] result_id(res[w]),
{
    let n = qs.len() as int;
    let vp = valid_positions(qs, n);
    lemma_valid_positions(qs, n);
    assert forall|t: int| 0 <= t < res.len() implies result_id(#[trigger] res[t]) == vp[t] + 1 by {
        assert(result_for(qs[vp[t]], (vp[t] + 1) as u8, res[t]));
    }
    assert forall|i: int| 0 <= i < qs.len() implies match #[trigger] qs[i] {
        InlineRequest::Article { title, responce } => (title@.len() > 0 && responce@.len() > 0)
            <==> exists|t: int| 0 <= t < res.len() && result_id(res[t]) == i + 1 && res[t] is Article,
        InlineRequest::Voice { title, caption, voice_url } => (title@.len() > 0 && (voice_url is Some
            || caption@.len() > 0)) <==> exists|t: int|
            0 <= t < res.len() && result_id(res[t]) == i + 1 && (voice_url is Some <==> res[t] is Voice),
    } by {
        if request_valid(qs[i]) {
            lemma_valid_positions_complete(qs, n, i);
            let t = choose|t: int| 0 <= t < vp.len() && vp[t] == i;
            assert(result_id(res[t]) == i + 1);
            assert(result_for(qs[i], (i + 1) as u8, res[t]));
        } else {
            assert forall|t: int| 0 <= t < res.len() implies result_id(res[t]) != i + 1 by {
                assert(result_id(res[t]) == vp[t] + 1);
                assert(request_valid(qs[vp[t]]));
            }
        }
    }
    assert forall|t: int, w: int| 0 <= t < w < res.len() implies #[trigger] result_id(res[t])
        < #[trigger] result_id(res[w]) by {
        assert(result_id(res[t]) == vp[t] + 1);
        assert(result_id(res[w]) == vp[w] + 1);
    }
}

impl InlineQueryResult {
    /// An article result; refused where the title or the text is empty.
    pub fn article(id: u8, title: &str, responce: &str) -> (res: Result<Self, BotError>)
        ensures
            res is Err <==> (title@.len() == 0 || responce@.len() == 0),
            res matches Err(e) ==> is_invalid_request_error(e),
            res matches Ok(r) ==> is_article(r, id, title@, responce@),
    {
        if title.unicode_len() == 0 || responce.unicode_len() == 0 {
            return Err(BotError::InternalError(String::from_str("Invalid inline query request")));
        }
        Ok(
            InlineQueryResult::Article(
                InlineQueryResultArticle {
                    query_type: String::from_str("article"),
                    id: id,
                    title: String::from_str(title),
                    input_message_content: InputMessageContent::Text(
                        InputTextMessageContent {
                            message_text: String::from_str(responce),
                            disable_web_page_preview: false,
                        },
                    ),
                },
            ),
        )
    }

    /// A voice result where there is a recording; else an article that sends the
    /// caption. Refused where the title is empty.
    pub fn voice(id: u8, title: &str, caption: &str, voice_url: Option<&String>) -> (res: Result<
        Self,
        BotError,
    >)
        ensures
            res is Err <==> (title@.len() == 0 || (voice_url is None && caption@.len() == 0)),
            res matches Err(e) ==> is_invalid_request_error(e),
            res matches Ok(r) ==> match voice_url {
                Some(u) => is_voice(r, id, title@, u@, caption@),
                None => is_article(r, id, title@, caption@),
            },
    {
        if title.unicode_len() == 0 {
            return Err(BotError::InternalError(String::from_str("Invalid inline query request")));
        }
        match voice_url {
            Some(voice_url) => Ok(
                InlineQueryResult::Voice(
                    InlineQueryResultVoice {
                        query_type: String::from_str("voice"),
                        id: id,
                        title: String::from_str(title),
                        voice_url: voice_url.clone(),
                        caption: Some(String::from_str(caption)),
                    },
                ),
            ),
            None => Self::article(id, title, caption),
        }
    }
}

/// The results for a list of requests, numbered from 1 in the order of the
/// requests; a request that is refused gives no result but uses up its number.
pub fn inline_query_results(requests: Vec<InlineRequest>) -> (res: Vec<InlineQueryResult>)
    requires
        requests@.len() < 255,
    ensures
        res@.len() == valid_positions(requests@, requests@.len() as int).len(),
        forall|t: int|
            0 <= t < res@.len() ==> {
                let p = #[trigger] valid_positions(requests@, requests@.len() as int)[t];
                result_for(requests@[p], (p + 1) as u8, res@[t])
            },
        forall|t: int|
            0 <= t < res@.len() ==> 1 <= #[trigger] result_id(res@[t]) <= requests@.len(),
        forall|t: int, u: int|
            0 <= t < u < res@.len() ==> #[trigger] result_id(res@[t]) < #[trigger] result_id(
                res@[u],
            ),
{
    let mut out: Vec<InlineQueryResult> = Vec::new();
    let n = requests.len();
    let mut i: usize = 0;
    let mut id: u8 = 1;
    while i < n
        invariant
            i <= n < 255,
            n == requests@.len(),
            id == i + 1,
            out@.len() == valid_positions(requests@, i as int).len(),
            forall|t: int|
                0 <= t < out@.len() ==> {
                    let p = #[trigger] valid_positions(requests@, i as int)[t];
                    result_for(requests@[p], (p + 1) as u8, out@[t])
                },
        decreases n - i,
    {
        let made = match &requests[i] {
            InlineRequest::Article { title, responce } => InlineQueryResult::article(
                id,
                title.as_str(),
                responce.as_str(),
            ),
            InlineRequest::Voice { title, caption, voice_url } => InlineQueryResult::voice(
                id,
                title.as_str(),
                caption.as_str(),
                voice_url.as_ref(),
            ),
        };
        let ghost before = out@;
        match made {
            Ok(r) => {
                out.push(r);
            },
            Err(_) => {},
        }
        proof {
            let vp = valid_positions(requests@, i + 1);
            assert forall|t: int| 0 <= t < out@.len() implies {
                let p = #[trigger] vp[t];
                result_for(requests@[p], (p + 1) as u8, out@[t])
            } by {
                if t < before.len() {
                    assert(vp[t] == valid_positions(requests@, i as int)[t]);
                }
            }
        }
        i = i + 1;
        id = id + 1;
    }
    proof {
        let vp = valid_positions(requests@, n as int);
        lemma_valid_positions(requests@, n as int);
        assert forall|t: int| 0 <= t < out@.len() implies result_id(out@[t]) == vp[t] + 1 by {
            let p = vp[t];
            assert(result_for(requests@[p], (p + 1) as u8, out@[t]));
        }
        assert forall|t: int| 0 <= t < out@.len() implies 1 <= #[trigger] result_id(out@[t])
            <= requests@.len() by {
            assert(result_id(out@[t]) == vp[t] + 1);
        }
        assert forall|t: int, u: int| 0 <= t < u < out@.len() implies #[trigger] result_id(out@[t])
            < #[trigger] result_id(out@[u]) by {
            assert(result_id(out@[t]) == vp[t] + 1);
            assert(result_id(out@[u]) == vp[u] + 1);
        }
    }
    out
}

/// `b` is the button with text `p.0` that reports `p.1` when pressed.
pub open spec fn is_button_for(b: InlineKeyboardButton, p: (String, String)) -> bool {
    &&& b.text == p.0
    &&& b.callback_data == Some(p.1)
    &&& b.url is None
}

impl ReplyMarkup {
    /// An inline keyboard with one button per (text, reply) pair, row by row.
    pub fn inline_keyboard_markup(keys: Vec<Vec<(String, String)>>) -> (res: ReplyMarkup)
        ensures
            res matches ReplyMarkup::InlineKeyboard(m) && m.inline_keyboard@.len() == keys@.len()
                && forall|i: int|
                0 <= i < keys@.len() ==> {
                    &&& (#[trigger] m.inline_keyboard@[i])@.len() == keys@[i]@.len()
                    &&& forall|j: int|
                        0 <= j < keys@[i]@.len() ==> is_button_for(
                            #[trigger] m.inline_keyboard@[i]@[j],
                            keys@[i]@[j],
                        )
                },
    {
        let mut rows: Vec<Vec<InlineKeyboardButton>> = Vec::new();
        let n = keys.len();
        let mut i: usize = 0;
        while i < n
            invariant
                i <= n,
                n == keys@.len(),
                rows@.len() == i,
                forall|a: int|
                    0 <= a < i ==> {
                        &&& (#[trigger] rows@[a])@.len() == keys@[a]@.len()
                        &&& forall|j: int|
                            0 <= j < keys@[a]@.len() ==> is_button_for(
                                #[trigger] rows@[a]@[j],
                                keys@[a]@[j],
                            )
                    },
            decreases n - i,
        {
            let row = &keys[i];
            let m = row.len();
            let mut buttons: Vec<InlineKeyboardButton> = Vec::new();
            let mut j: usize = 0;
            while j < m
                invariant
                    j <= m,
                    m == row@.len(),
                    row == keys@[i as int],
                    buttons@.len() == j,
                    forall|b: int|
                        0 <= b < j ==> is_button_for(#[trigger] buttons@[b], row@[b]),
                decreases m - j,
            {
                let (text, data) = &row[j];
                buttons.push(
                    InlineKeyboardButton {
                        text: text.clone(),
                        url: None,
                        callback_data: Some(data.clone()),
                    },
                );
                j = j + 1;
            }
            rows.push(buttons);
            i = i + 1;
        }
        ReplyMarkup::InlineKeyboard(InlineKeyboardMarkup { inline_keyboard: rows })
    }
}

} // verus!
