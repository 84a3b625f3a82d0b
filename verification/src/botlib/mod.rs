//! The chat-bot client: its handlers, how updates are routed to them, and the
//! requests it sends.
pub mod datatypes;
pub mod results;
pub mod requests;

use vstd::prelude::*;
pub use datatypes::{
    AnswerInlineQuery, BotUpdate, CallBackQuery, Chat, InlineKeyboardButton, InlineKeyboardMarkup,
    InlineQuery, InlineQueryResult, InlineQueryResultArticle, InlineQueryResultVoice,
    InputMessageContent, InputTextMessageContent, Message, ReplyMarkup, SendMessage, User,
};

verus! {

/// Why a request of the bot failed.
#[derive(Debug)]
pub enum BotError {
    NetworkError(String),
    ServerError,
    BotDoesntExist,
    InternalError(String),
}

/// The kind of update that a handler is registered for.
#[derive(Debug, PartialEq, Eq, Hash)]
pub enum MessageType {
    /// A message with this exact text.
    Text(String),
    /// Any inline query.
    InlineQuery,
    /// A button press that reports this exact data.
    CallBackQuery(String),
}

/// A `MessageType` as a mathematical value.
pub enum MessageKey {
    Text(Seq<char>),
    InlineQuery,
    CallBackQuery(Seq<char>),
}

impl View for MessageType {
    type V = MessageKey;

    open spec fn view(&self) -> MessageKey {
        match self {
            MessageType::Text(t) => MessageKey::Text(t@),
            MessageType::InlineQuery => MessageKey::InlineQuery,
            MessageType::CallBackQuery(d) => MessageKey::CallBackQuery(d@),
        }
    }
}

/// Whether a handler registered for `k` answers update `u`: a message text is
/// compared with a `Text` key; otherwise any inline query answers to
/// `InlineQuery`; otherwise the data of a button press is compared with a
/// `CallBackQuery` key.
pub open spec fn key_matches(k: MessageKey, u: BotUpdate) -> bool {
    if u.message is Some && u.message->0.text is Some && k is Text {
        k->Text_0 == u.message->0.text->0@
    } else if u.inline_query is Some {
        k is InlineQuery
    } else if u.callback_query is Some && u.callback_query->0.data is Some && k is CallBackQuery {
        k->CallBackQuery_0 == u.callback_query->0.data->0@
    } else {
        false
    }
}

/// Law: a `Text(t)` handler answers exactly the updates whose message text is
/// `t`; an `InlineQuery` handler answers exactly the updates with an inline
/// query; a `CallBackQuery(d)` handler answers exactly the button presses that
/// report `d` and come without an inline query.
pub proof fn lemma_key_matches_by_kind(k: MessageKey, u: BotUpdate)
    ensures
        k matches MessageKey::Text(t) ==> (key_matches(k, u) <==> (u.message is Some
            && u.message->0.text is Some && u.message->0.text->0@ == t)),
        k is InlineQuery ==> (key_matches(k, u) <==> u.inline_query is Some),
        k matches MessageKey::CallBackQuery(d) ==> (key_matches(k, u) <==> (u.inline_query is None
            && u.callback_query is Some
            && u.callback_query->0.data is Some && u.callback_query->0.data->0@ == d)),
{
}

impl MessageType {
    /// Whether a handler registered for `self` answers `other` (see `key_matches`).
    pub fn eq(&self, other: &BotUpdate) -> (res: bool)
        ensures
            res == key_matches(self@, *other),
    {
        if let Some(msg) = &other.message {
            if let Some(text) = &msg.text {
                if let MessageType::Text(msg_text) = self {
                    return *text == *msg_text;
                }
            }
        }
        if other.inline_query.is_some() {
            return match self {
                MessageType::InlineQuery => true,
                _ => false,
            };
        }
        if let Some(query) = &other.callback_query {
            if let Some(data) = &query.data {
                if let MessageType::CallBackQuery(msg) = self {
                    return *msg == *data;
                }
            }
        }
        false
    }

    /// Whether `self` and `other` are the same key.
    pub fn same_key(&self, other: &MessageType) -> (res: bool)
        ensures
            res == (self@ == other@),
    {
        match (self, other) {
            (MessageType::Text(a), MessageType::Text(b)) => *a == *b,
            (MessageType::InlineQuery, MessageType::InlineQuery) => true,
            (MessageType::CallBackQuery(a), MessageType::CallBackQuery(b)) => *a == *b,
            _ => false,
        }
    }
}

/// The client of the chat service, with its key and the handlers registered
/// for kinds of updates; `H` is the type of a handler.
pub struct Telebotapi<H> {
    pub api: String,
    /// The handlers, each with the key it answers; `None` until one is added.
    pub handle: Option<Vec<(MessageType, H)>>,
}

/// The keys of a list of handlers.
pub open spec fn keys_of<H>(s: Seq<(MessageType, H)>) -> Seq<MessageKey> {
    s.map_values(|p: (MessageType, H)| p.0@)
}

/// No key occurs twice in `s`.
pub open spec fn distinct_keys<H>(s: Seq<(MessageType, H)>) -> bool {
    forall|i: int, j: int| 0 <= i < s.len() && 0 <= j < s.len() && i != j ==> s[i].0@ != s[j].0@
}

/// The handlers of `s`, by key.
pub open spec fn handler_map<H>(s: Seq<(MessageType, H)>) -> Map<MessageKey, H> {
    Map::new(
        |k: MessageKey| exists|i: int| 0 <= i < s.len() && s[i].0@ == k,
        |k: MessageKey| s[choose|i: int| 0 <= i < s.len() && s[i].0@ == k].1,
    )
}

/// The positions, below `n`, of the keys that answer update `u`.
pub open spec fn matching_positions(keys: Seq<MessageKey>, u: BotUpdate, n: int) -> Seq<int>
    decreases n,
{
    if n <= 0 {
        Seq::empty()
    } else if key_matches(keys[n - 1], u) {
        matching_positions(keys, u, n - 1).push(n - 1)
    } else {
        matching_positions(keys, u, n - 1)
    }
}

/// The positions, below `n`, of key `k`.
pub open spec fn key_positions(keys: Seq<MessageKey>, k: MessageKey, n: int) -> Seq<int>
    decreases n,
{
    if n <= 0 {
        Seq::empty()
    } else if keys[n - 1] == k {
        key_positions(keys, k, n - 1).push(n - 1)
    } else {
        key_positions(keys, k, n - 1)
    }
}

/// What to do with an update.
pub enum Route {
    /// No handler was ever added: answer with the fixed reply.
    Fallback,
    /// Run the handlers at these positions of the handler list.
    Run(Vec<usize>),
}

/// The route of update `u` for handler list `s`: the handlers whose key answers
/// `u`; where there are none, the handler for the empty text (for a message) or
/// for the empty button data (for a button press), where it exists.
pub open spec fn route_of<H>(s: Seq<(MessageType, H)>, u: BotUpdate) -> Seq<int> {
    let keys = keys_of(s);
    let matched = matching_positions(keys, u, s.len() as int);
    if matched.len() > 0 {
        matched
    } else if u.message is Some {
        key_positions(keys, MessageKey::Text(Seq::empty()), s.len() as int)
    } else if u.callback_query is Some {
        key_positions(keys, MessageKey::CallBackQuery(Seq::empty()), s.len() as int)
    } else {
        Seq::empty()
    }
}

impl<H> Telebotapi<H> {
    /// The handler list holds no key twice.
    pub open spec fn wf(&self) -> bool {
        self.handle matches Some(v) ==> distinct_keys(v@)
    }

    /// The handlers by key, or `None` where none was ever added.
    pub open spec fn handlers(&self) -> Option<Map<MessageKey, H>> {
        match self.handle {
            Some(v) => Some(handler_map(v@)),
            None => None,
        }
    }

    /// The client for key `api`, given whether the chat service knows the bot.
    pub fn new(api: &str, bot_known: bool) -> (res: Result<Self, BotError>)
        ensures
            !bot_known <==> res matches Err(BotError::BotDoesntExist),
            bot_known ==> (res matches Ok(b) && b.api@ == api@ && b.handle is None && b.wf()),
    {
        if !bot_known {
            return Err(BotError::BotDoesntExist);
        }
        Ok(Telebotapi { api: String::from_str(api), handle: None })
    }

    /// The position of key `message` in the handler list, if it is there.
    fn position_of(v: &Vec<(MessageType, H)>, message: &MessageType) -> (res: Option<usize>)
        ensures
            match res {
                Some(i) => i < v@.len() && v@[i as int].0@ == message@,
                None => forall|i: int| 0 <= i < v@.len() ==> v@[i].0@ != message@,
            },
    {
        let n = v.len();
        let mut i: usize = 0;
        while i < n
            invariant
                i <= n,
                n == v@.len(),
                forall|j: int| 0 <= j < i ==> v@[j].0@ != message@,
            decreases n - i,
        {
            if v[i].0.same_key(message) {
                return Some(i);
            }
            i = i + 1;
        }
        None
    }

    /// Registers `func` for `message`, in place of any handler that `message`
    /// had.
    pub fn add_handler(&mut self, message: MessageType, func: H)
        requires
            old(self).wf(),
        ensures
            final(self).wf(),
            final(self).api == old(self).api,
            final(self).handlers() == Some(
                match old(self).handlers() {
                    Some(m) => m,
                    None => Map::<MessageKey, H>::empty(),
                }.insert(message@, func),
            ),
    {
        let mut v = match self.handle.take() {
            Some(v) => v,
            None => Vec::new(),
        };
        let ghost old_v = v@;
        let ghost key = message@;
        match Self::position_of(&v, &message) {
            Some(i) => {
                v.set(i, (message, func));
                proof {
                    lemma_map_update(old_v, i as int, v@[i as int]);
                }
            },
            None => {
                v.push((message, func));
                proof {
                    lemma_map_push(old_v, v@.last());
                }
            },
        }
        proof {
            if old_v.len() == 0 {
                assert(handler_map(old_v) =~= Map::<MessageKey, H>::empty());
            }
        }
        self.handle = Some(v);
    }

    /// The positions in `v` of the handlers whose key answers `update`.
    fn matching_handlers(v: &Vec<(MessageType, H)>, update: &BotUpdate) -> (res: Vec<usize>)
        ensures
            res@.map_values(|i: usize| i as int) == matching_positions(
                keys_of(v@),
                *update,
                v@.len() as int,
            ),
    {
        let n = v.len();
        let mut out: Vec<usize> = Vec::new();
        let mut i: usize = 0;
        while i < n
            invariant
                i <= n,
                n == v@.len(),
                out@.map_values(|x: usize| x as int) == matching_positions(
                    keys_of(v@),
                    *update,
                    i as int,
                ),
            decreases n - i,
        {
            assert(keys_of(v@)[i as int] == v@[i as int].0@);
            if v[i].0.eq(update) {
                out.push(i);
                assert(out@.map_values(|x: usize| x as int) =~= matching_positions(
                    keys_of(v@),
                    *update,
                    i as int,
                ).push(i as int));
            }
            i = i + 1;
        }
        out
    }

    /// The positions in `v` of key `key`.
    fn key_handlers(v: &Vec<(MessageType, H)>, key: &MessageType) -> (res: Vec<usize>)
        ensures
            res@.map_values(|i: usize| i as int) == key_positions(
                keys_of(v@),
                key@,
                v@.len() as int,
            ),
    {
        let n = v.len();
        let mut out: Vec<usize> = Vec::new();
        let mut i: usize = 0;
        while i < n
            invariant
                i <= n,
                n == v@.len(),
                out@.map_values(|x: usize| x as int) == key_positions(keys_of(v@), key@, i as int),
            decreases n - i,
        {
            assert(keys_of(v@)[i as int] == v@[i as int].0@);
            if v[i].0.same_key(key) {
                out.push(i);
                assert(out@.map_values(|x: usize| x as int) =~= key_positions(
                    keys_of(v@),
                    key@,
                    i as int,
                ).push(i as int));
            }
            i = i + 1;
        }
        out
    }

    /// What to do with `update` (see `route_of`).
    pub fn route(&self, update: &BotUpdate) -> (res: Route)
        ensures
            match self.handle {
                None => res is Fallback,
                Some(v) => res matches Route::Run(ix) && ix@.map_values(|i: usize| i as int)
                    == route_of(v@, *update),
            },
    {
        match &self.handle {
            None => Route::Fallback,
            Some(v) => {
                let matched = Self::matching_handlers(v, update);
                if matched.len() > 0 {
                    Route::Run(matched)
                } else if update.message.is_some() {
                    let key = MessageType::Text(String::new());
                    assert(key@ == MessageKey::Text(Seq::empty()));
                    Route::Run(Self::key_handlers(v, &key))
                } else if update.callback_query.is_some() {
                    let key = MessageType::CallBackQuery(String::new());
                    assert(key@ == MessageKey::CallBackQuery(Seq::empty()));
                    Route::Run(Self::key_handlers(v, &key))
                } else {
                    let out: Vec<usize> = Vec::new();
                    assert(out@.map_values(|i: usize| i as int) =~= Seq::<int>::empty());
                    Route::Run(out)
                }
            },
        }
    }
}

/// The matching positions below `n` are exactly the matching keys, in rising order.
proof fn lemma_matching_positions(keys: Seq<MessageKey>, u: BotUpdate, n: int)
    requires
        0 <= n <= keys.len(),
    ensures
        forall|t: int|
            0 <= t < matching_positions(keys, u, n).len() ==> 0 <= #[trigger] matching_positions(
                keys,
                u,
                n,
            )[t] < n && key_matches(keys[matching_positions(keys, u, n)[t]], u),
        forall|t: int, w: int|
            0 <= t < w < matching_positions(keys, u, n).len() ==> #[trigger] matching_positions(
                keys,
                u,
                n,
            )[t] < #[trigger] matching_positions(keys, u, n)[w],
        forall|i: int|
            0 <= i < n && key_matches(#[trigger] keys[i], u) ==> matching_positions(
                keys,
                u,
                n,
            ).contains(i),
    decreases n,
{
    if n > 0 {
        lemma_matching_positions(keys, u, n - 1);
        let prev = matching_positions(keys, u, n - 1);
        let cur = matching_positions(keys, u, n);
        if key_matches(keys[n - 1], u) {
            assert(cur == prev.push(n - 1));
            assert forall|t: int| 0 <= t < cur.len() implies 0 <= #[trigger] cur[t] < n
                && key_matches(keys[cur[t]], u) by {
                if t < prev.len() {
                    assert(cur[t] == prev[t]);
                }
            }
            assert forall|t: int, w: int| 0 <= t < w < cur.len() implies #[trigger] cur[t]
                < #[trigger] cur[w] by {
                assert(cur[t] == prev[t]);
                if w < prev.len() {
                    assert(cur[w] == prev[w]);
                }
            }
            assert forall|i: int| 0 <= i < n && key_matches(#[trigger] keys[i], u) implies cur.contains(
                i,
            ) by {
                if i < n - 1 {
                    let t = choose|t: int| 0 <= t < prev.len() && prev[t] == i;
                    assert(cur[t] == i);
                } else {
                    assert(cur[cur.len() - 1] == i);
                }
            }
        }
    }
}

/// The positions of a key below `n` are the places where it stands; with
/// distinct keys there is at most one.
proof fn lemma_key_positions<H>(s: Seq<(MessageType, H)>, k: MessageKey, n: int)
    requires
        0 <= n <= s.len(),
        distinct_keys(s),
    ensures
        key_positions(keys_of(s), k, n).len() <= 1,
        forall|t: int|
            0 <= t < key_positions(keys_of(s), k, n).len() ==> 0 <= #[trigger] key_positions(
                keys_of(s),
                k,
                n,
            )[t] < n && s[key_positions(keys_of(s), k, n)[t]].0@ == k,
        forall|i: int|
            0 <= i < n && (#[trigger] s[i]).0@ == k ==> key_positions(keys_of(s), k, n) == seq![i],
    decreases n,
{
    let keys = keys_of(s);
    if n > 0 {
        lemma_key_positions(s, k, n - 1);
        let prev = key_positions(keys, k, n - 1);
        assert(keys[n - 1] == s[n - 1].0@);
        if keys[n - 1] != k {
            assert forall|i: int| 0 <= i < n && (#[trigger] s[i]).0@ == k implies key_positions(
                keys,
                k,
                n,
            ) == seq![i] by {
                assert(i != n - 1);
            }
        }
        if keys[n - 1] == k {
            assert forall|i: int| 0 <= i < n - 1 implies (#[trigger] s[i]).0@ != k by {
                assert(s[i].0@ != s[n - 1].0@);
            }
            if prev.len() == 1 {
                assert(s[prev[0]].0@ == k);
                assert(s[n - 1].0@ == k);
            }
            assert(prev.len() == 0);
            assert(key_positions(keys, k, n) =~= seq![n - 1]);
        }
    }
}

/// Law: the route of an update runs only handlers that are there, none twice;
/// it runs every handler whose key answers the update, and where one answers
/// it runs only such handlers; where none answers, it runs at most the one
/// handler for the empty text or the empty button data.
pub proof fn lemma_route<H>(s: Seq<(MessageType, H)>, u: BotUpdate)
    requires
        distinct_keys(s),
    ensures
        forall|t: int| 0 <= t < route_of(s, u).len() ==> 0 <= #[trigger] route_of(s, u)[t] < s.len(),
        forall|t: int, w: int|
            0 <= t < w < route_of(s, u).len() ==> #[trigger] route_of(s, u)[t] != #[trigger] route_of(
                s,
                u,
            )[w],
        forall|i: int|
            0 <= i < s.len() && key_matches(#[trigger] s[i].0@, u) ==> route_of(s, u).contains(i),
        (exists|i: int| 0 <= i < s.len() && key_matches(#[trigger] s[i].0@, u)) ==> forall|t: int|
            0 <= t < route_of(s, u).len() ==> key_matches(s[#[trigger] route_of(s, u)[t]].0@, u),
        !(exists|i: int| 0 <= i < s.len() && key_matches(#[trigger] s[i].0@, u)) ==> route_of(
            s,
            u,
        ).len() <= 1,
{
    let keys = keys_of(s);
    let n = s.len() as int;
    lemma_matching_positions(keys, u, n);
    lemma_key_positions(s, MessageKey::Text(Seq::empty()), n);
    lemma_key_positions(s, MessageKey::CallBackQuery(Seq::empty()), n);
    let matched = matching_positions(keys, u, n);
    assert forall|i: int| 0 <= i < s.len() implies keys[i] == #[trigger] s[i].0@ by {}
    if exists|i: int| 0 <= i < s.len() && key_matches(#[trigger] s[i].0@, u) {
        let i = choose|i: int| 0 <= i < s.len() && key_matches(#[trigger] s[i].0@, u);
        assert(key_matches(keys[i], u));
        assert(matched.contains(i));
        assert(matched.len() > 0);
    } else {
        if matched.len() > 0 {
            let p = matched[0];
            assert(key_matches(keys[p], u));
            assert(key_matches(s[p].0@, u));
        }
    }
}

/// Law: where no handler's key answers an update, a message runs exactly the
/// handler for the empty text, a button press (without a message) exactly the
/// handler for the empty button data, each where it exists, and any other update
/// runs nothing; in particular a button press never runs a text handler.
pub proof fn lemma_route_without_match<H>(s: Seq<(MessageType, H)>, u: BotUpdate)
    requires
        distinct_keys(s),
        forall|i: int| 0 <= i < s.len() ==> !key_matches((#[trigger] s[i]).0@, u),
    ensures
        u.message is Some ==> forall|i: int|
            0 <= i < s.len() ==> (route_of(s, u).contains(i) <==> (#[trigger] s[i]).0@
                == MessageKey::Text(Seq::empty())),
        u.message is None && u.callback_query is Some ==> forall|i: int|
            0 <= i < s.len() ==> (route_of(s, u).contains(i) <==> (#[trigger] s[i]).0@
                == MessageKey::CallBackQuery(Seq::empty())),
        u.message is None && u.callback_query is Some ==> forall|t: int|
            0 <= t < route_of(s, u).len() ==> !(s[#[trigger] route_of(s, u)[t]].0@ is Text),
        u.message is None && u.callback_query is None ==> route_of(s, u).len() == 0,
        route_of(s, u).len() <= 1,
        forall|t: int| 0 <= t < route_of(s, u).len() ==> 0 <= #[trigger] route_of(s, u)[t] < s.len(),
{
    let keys = keys_of(s);
    let n = s.len() as int;
    lemma_matching_positions(keys, u, n);
    let matched = matching_positions(keys, u, n);
    if matched.len() > 0 {
        let p = matched[0];
        assert(keys[p] == s[p].0@);
        assert(!key_matches(s[p].0@, u));
    }
    let tk = MessageKey::Text(Seq::<char>::empty());
    let ck = MessageKey::CallBackQuery(Seq::<char>::empty());
    lemma_key_positions(s, tk, n);
    lemma_key_positions(s, ck, n);
    let r = route_of(s, u);
    if u.message is Some {
        assert(r == key_positions(keys, tk, n));
        assert forall|i: int| 0 <= i < s.len() implies (r.contains(i) <==> (#[trigger] s[i]).0@ == tk) by {
            if r.contains(i) {
                let t = choose|t: int| 0 <= t < r.len() && r[t] == i;
                assert(s[r[t]].0@ == tk);
            }
            if s[i].0@ == tk {
                assert(r == seq![i]);
                assert(r[0] == i);
            }
        }
    } else if u.callback_query is Some {
        assert(r == key_positions(keys, ck, n));
        assert forall|i: int| 0 <= i < s.len() implies (r.contains(i) <==> (#[trigger] s[i]).0@ == ck) by {
            if r.contains(i) {
                let t = choose|t: int| 0 <= t < r.len() && r[t] == i;
                assert(s[r[t]].0@ == ck);
            }
            if s[i].0@ == ck {
                assert(r == seq![i]);
                assert(r[0] == i);
            }
        }
        assert forall|t: int| 0 <= t < r.len() implies !(s[#[trigger] r[t]].0@ is Text) by {
            assert(s[r[t]].0@ == ck);
        }
    }
}

/// Replacing the handler of an existing key updates the map at that key.
proof fn lemma_map_update<H>(s: Seq<(MessageType, H)>, i: int, p: (MessageType, H))
    requires
        distinct_keys(s),
        0 <= i < s.len(),
        s[i].0@ == p.0@,
    ensures
        distinct_keys(s.update(i, p)),
        handler_map(s.update(i, p)) == handler_map(s).insert(p.0@, p.1),
{
    let t = s.update(i, p);
    assert forall|a: int, b: int| 0 <= a < t.len() && 0 <= b < t.len() && a != b implies t[a].0@
        != t[b].0@ by {
        assert(t[a].0@ == s[a].0@);
        assert(t[b].0@ == s[b].0@);
    }
    let m1 = handler_map(t);
    let m2 = handler_map(s).insert(p.0@, p.1);
    assert forall|k: MessageKey| m1.dom().contains(k) <==> m2.dom().contains(k) by {
        if m2.dom().contains(k) {
            if k == p.0@ {
                assert(t[i].0@ == k);
            } else {
                let j = choose|j: int| 0 <= j < s.len() && s[j].0@ == k;
                assert(t[j].0@ == k);
            }
        }
        if m1.dom().contains(k) {
            let j = choose|j: int| 0 <= j < t.len() && t[j].0@ == k;
            assert(s[j].0@ == k);
        }
    }
    assert forall|k: MessageKey| #[trigger] m1.dom().contains(k) implies m1[k] == m2[k] by {
        let j = choose|j: int| 0 <= j < t.len() && t[j].0@ == k;
        if k == p.0@ {
            assert(j == i);
        } else {
            let j2 = choose|j2: int| 0 <= j2 < s.len() && s[j2].0@ == k;
            assert(s[j].0@ == k);
            assert(j == j2);
        }
    }
    assert(m1 =~= m2);
}

/// Adding a handler for a new key extends the map at that key.
proof fn lemma_map_push<H>(s: Seq<(MessageType, H)>, p: (MessageType, H))
    requires
        distinct_keys(s),
        forall|i: int| 0 <= i < s.len() ==> s[i].0@ != p.0@,
    ensures
        distinct_keys(s.push(p)),
        handler_map(s.push(p)) == handler_map(s).insert(p.0@, p.1),
{
    let t = s.push(p);
    let n = s.len() as int;
    assert forall|a: int, b: int| 0 <= a < t.len() && 0 <= b < t.len() && a != b implies t[a].0@
        != t[b].0@ by {
        if a < n {
            assert(t[a] == s[a]);
        }
        if b < n {
            assert(t[b] == s[b]);
        }
    }
    let m1 = handler_map(t);
    let m2 = handler_map(s).insert(p.0@, p.1);
    assert forall|k: MessageKey| m1.dom().contains(k) <==> m2.dom().contains(k) by {
        if m2.dom().contains(k) {
            if k == p.0@ {
                assert(t[n].0@ == k);
            } else {
                let j = choose|j: int| 0 <= j < s.len() && s[j].0@ == k;
                assert(t[j].0@ == k);
            }
        }
        if m1.dom().contains(k) {
            let j = choose|j: int| 0 <= j < t.len() && t[j].0@ == k;
            if j < n {
                assert(s[j].0@ == k);
            }
        }
    }
    assert forall|k: MessageKey| #[trigger] m1.dom().contains(k) implies m1[k] == m2[k] by {
        let j = choose|j: int| 0 <= j < t.len() && t[j].0@ == k;
        if k == p.0@ {
            assert(j == n);
        } else {
            let j2 = choose|j2: int| 0 <= j2 < s.len() && s[j2].0@ == k;
            assert(t[j2].0@ == k);
            assert(j == j2);
        }
    }
    assert(m1 =~= m2);
}

} // verus!
