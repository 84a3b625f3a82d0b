//! Dictionary entries: the reply of the dictionary service, the word entry that
//! the bot shows, and the rules that turn one into the other.
use vstd::prelude::*;
use crate::text::{
    all_ascii, byte_len, byte_len_exceeds, byte_prefix, byte_prefix_chars, join, join_strings,
    lemma_ascii_byte_len, lemma_ascii_byte_prefix, lemma_byte_len_append, lemma_byte_len_ge_len,
    lemma_byte_len_single, lemma_byte_prefix_sound, lemma_join_len, lemma_join_part, lemma_join_sep, part_offset,
};
use crate::json::{json_string_list, parse_string_list};

verus! {

/// Identity of an entry in the dictionary reply.
pub struct WordMeta {
    pub id: String,
    pub offensive: bool,
}

/// Name of a recorded pronunciation.
pub struct WordAudioMeta {
    pub audio: String,
}

/// One pronunciation: its written form and, possibly, a recording.
pub struct WordAudioExample {
    pub mw: Option<String>,
    pub sound: Option<WordAudioMeta>,
}

/// Headword and pronunciations of an entry.
pub struct WordAudio {
    pub hw: String,
    pub prs: Option<Vec<WordAudioExample>>,
}

/// One entry of the dictionary reply.
pub struct WordResponce {
    pub meta: WordMeta,
    pub hwi: WordAudio,
    pub shortdef: Vec<String>,
}

/// A word as the bot presents it.
pub struct WordFinder {
    pub word: String,
    pub offensive: bool,
    /// The headword, with its syllable marks.
    pub headword: String,
    pub pronunciation: Option<String>,
    pub audio_link: Option<String>,
    /// The short definitions, in the order of the reply.
    pub definition: Vec<String>,
}

/// Whether `c` has the Unicode Alphabetic property (the result of `char::is_alphabetic`).
pub uninterp spec fn char_alphabetic(c: char) -> bool;

/// Calls `char::is_alphabetic`; the contract claims only that its result is
/// `char_alphabetic(c)`, a property of `c` alone.
#[verifier::external_body]
fn is_alphabetic(c: char) -> (res: bool)
    ensures
        res == char_alphabetic(c),
{
    c.is_alphabetic()
}

/// Where the recordings of the dictionary service are stored.
pub open spec fn media_base() -> Seq<char> {
    "https://media.merriam-webster.com/audio/prons/en/us/ogg/"@
}

/// Where lookups of the dictionary service go.
pub open spec fn lookup_base() -> Seq<char> {
    "https://dictionaryapi.com/api/v3/references/collegiate/json/"@
}

/// The sub-directory that holds the recording `s`, or `None` where no link can be
/// formed: the name is empty, or a test on its leading bytes would cut a character.
/// Names that start with "bix" (and go on) or "gg" (and go on) have their own
/// directory; names that start with a letter go in the directory of that letter;
/// all others go in "number".
pub open spec fn audio_subdir(s: Seq<char>) -> Option<Seq<char>> {
    if byte_len(s) > 3 && byte_prefix(s, 3) is None {
        None
    } else if byte_len(s) > 3 && byte_prefix(s, 3) == Some(seq!['b', 'i', 'x']) {
        Some(seq!['b', 'i', 'x'])
    } else if byte_len(s) > 2 && byte_prefix(s, 2) is None {
        None
    } else if byte_len(s) > 2 && byte_prefix(s, 2) == Some(seq!['g', 'g']) {
        Some(seq!['g', 'g'])
    } else if s.len() == 0 {
        None
    } else if char_alphabetic(s[0]) {
        byte_prefix(s, 1)
    } else {
        Some(seq!['n', 'u', 'm', 'b', 'e', 'r'])
    }
}

/// The directory of an all-ASCII name, read off its characters.
pub open spec fn ascii_name_dir(s: Seq<char>) -> Seq<char> {
    if s.len() > 3 && s[0] == 'b' && s[1] == 'i' && s[2] == 'x' {
        seq!['b', 'i', 'x']
    } else if s.len() > 2 && s[0] == 'g' && s[1] == 'g' {
        seq!['g', 'g']
    } else if char_alphabetic(s[0]) {
        seq![s[0]]
    } else {
        seq!['n', 'u', 'm', 'b', 'e', 'r']
    }
}

/// Law: a recording is stored under "bix" only when its name starts with "bix",
/// under "gg" only when it starts with "gg", under a one-letter directory only
/// when that is its first character and alphabetic, and under "number" only when
/// its first character is not alphabetic; an empty name has no directory; and
/// every non-empty ASCII name is stored: after "bix" (longer than 3), else "gg"
/// (longer than 2), else its first letter, else "number".
pub proof fn lemma_audio_directory(s: Seq<char>)
    ensures
        s.len() == 0 ==> audio_subdir(s) is None,
        audio_subdir(s) == Some(seq!['b', 'i', 'x']) ==> s.len() > 3 && s[0] == 'b' && s[1] == 'i'
            && s[2] == 'x',
        audio_subdir(s) == Some(seq!['g', 'g']) ==> s.len() > 2 && s[0] == 'g' && s[1] == 'g',
        audio_subdir(s) matches Some(d) ==> {
            ||| d == seq!['b', 'i', 'x']
            ||| d == seq!['g', 'g']
            ||| d == seq![s[0]] && char_alphabetic(s[0])
            ||| d == seq!['n', 'u', 'm', 'b', 'e', 'r'] && !char_alphabetic(s[0])
        },
        all_ascii(s) && s.len() > 0 ==> audio_subdir(s) == Some(ascii_name_dir(s)),
{
    let bix = seq!['b', 'i', 'x'];
    let gg = seq!['g', 'g'];
    lemma_byte_len_ge_len(s);
    lemma_byte_len_single('g');
    lemma_byte_len_single('b');
    lemma_byte_len_single('i');
    lemma_byte_len_single('x');
    lemma_byte_len_append(seq!['g'], seq!['g']);
    assert(seq!['g'] + seq!['g'] =~= gg);
    lemma_byte_len_append(seq!['b'], seq!['i']);
    lemma_byte_len_append(seq!['b', 'i'], seq!['x']);
    assert(seq!['b'] + seq!['i'] =~= seq!['b', 'i']);
    assert(seq!['b', 'i'] + seq!['x'] =~= bix);
    if byte_prefix(s, 3) is Some {
        lemma_byte_prefix_sound(s, 3);
        let p = byte_prefix(s, 3)->0;
        if p == bix {
            assert(s[0] == p[0] && s[1] == p[1] && s[2] == p[2]);
            // more bytes than the prefix means more characters
            lemma_byte_len_append(p, s.skip(3));
            assert(p + s.skip(3) =~= s);
        }
    }
    if byte_prefix(s, 2) is Some {
        lemma_byte_prefix_sound(s, 2);
        let p = byte_prefix(s, 2)->0;
        if p == gg {
            assert(s[0] == p[0] && s[1] == p[1]);
            lemma_byte_len_append(p, s.skip(2));
            assert(p + s.skip(2) =~= s);
        }
    }
    if s.len() > 0 && byte_prefix(s, 1) is Some {
        lemma_byte_prefix_sound(s, 1);
        let p = byte_prefix(s, 1)->0;
        lemma_byte_len_ge_len(p);
        assert(p.len() == 1) by {
            if p.len() == 0 {
                assert(byte_len(p) == 0);
            }
        }
        assert(p =~= seq![s[0]]);
        assert(p != gg);
        assert(p != bix);
    }
    if all_ascii(s) && s.len() > 0 {
        lemma_ascii_byte_len(s);
        if s.len() >= 3 {
            lemma_ascii_byte_prefix(s, 3);
            if s[0] == 'b' && s[1] == 'i' && s[2] == 'x' {
                assert(s.take(3) =~= bix);
            } else {
                assert(s.take(3)[0] == s[0] && s.take(3)[1] == s[1] && s.take(3)[2] == s[2]);
                assert(s.take(3) != bix);
            }
        }
        if s.len() >= 2 {
            lemma_ascii_byte_prefix(s, 2);
            if s[0] == 'g' && s[1] == 'g' {
                assert(s.take(2) =~= gg);
            } else {
                assert(s.take(2)[0] == s[0] && s.take(2)[1] == s[1]);
                assert(s.take(2) != gg);
            }
        }
        lemma_ascii_byte_prefix(s, 1);
        assert(s.take(1) =~= seq![s[0]]);
    }
}

/// The link to recording `s` in directory `dir`.
pub open spec fn audio_url(s: Seq<char>, dir: Seq<char>) -> Seq<char> {
    media_base() + dir + seq!['/'] + s + seq!['.', 'o', 'g', 'g']
}

/// The recording of the first pronunciation that has one.
pub open spec fn first_sound(v: Seq<WordAudioExample>) -> Option<WordAudioMeta>
    decreases v.len(),
{
    if v.len() == 0 {
        None
    } else if v[0].sound is Some {
        v[0].sound
    } else {
        first_sound(v.drop_first())
    }
}

/// Whether an entry can be turned into a `WordFinder`: a list of pronunciations,
/// where there is one, is not empty, has a recording, and the first recording's
/// name gives a link.
pub open spec fn response_accepted(r: WordResponce) -> bool {
    match r.hwi.prs {
        None => true,
        Some(v) => {
            &&& v@.len() > 0
            &&& match first_sound(v@) {
                Some(m) => audio_subdir(m.audio@) is Some,
                None => false,
            }
        },
    }
}

/// The written pronunciation of an entry: that of its first pronunciation, the
/// empty text where that one has none.
pub open spec fn pronunciation_of(r: WordResponce) -> Option<Seq<char>> {
    match r.hwi.prs {
        None => None,
        Some(v) => Some(
            match v@[0].mw {
                Some(m) => m@,
                None => Seq::empty(),
            },
        ),
    }
}

/// The audio link of an accepted entry.
pub open spec fn audio_link_of(r: WordResponce) -> Option<Seq<char>> {
    match r.hwi.prs {
        None => None,
        Some(v) => match first_sound(v@) {
            Some(m) => match audio_subdir(m.audio@) {
                Some(d) => Some(audio_url(m.audio@, d)),
                None => None,
            },
            None => None,
        },
    }
}

/// The first recording is the one of the first pronunciation that has one.
proof fn lemma_first_sound_at(v: Seq<WordAudioExample>, i: int)
    requires
        0 <= i < v.len(),
        v[i].sound is Some,
        forall|j: int| 0 <= j < i ==> v[j].sound is None,
    ensures
        first_sound(v) == v[i].sound,
    decreases i,
{
    if i > 0 {
        let t = v.drop_first();
        assert forall|j: int| 0 <= j < i - 1 implies t[j].sound is None by {
            assert(t[j] == v[j + 1]);
        }
        lemma_first_sound_at(t, i - 1);
    }
}

/// Without any recording there is no first recording.
proof fn lemma_no_sound(v: Seq<WordAudioExample>)
    requires
        forall|j: int| 0 <= j < v.len() ==> v[j].sound is None,
    ensures
        first_sound(v) is None,
    decreases v.len(),
{
    if v.len() > 0 {
        let t = v.drop_first();
        assert forall|j: int| 0 <= j < t.len() implies t[j].sound is None by {
            assert(t[j] == v[j + 1]);
        }
        lemma_no_sound(t);
    }
}

/// Law: an entry without pronunciations is accepted, with no pronunciation and no
/// link; one with an empty list of pronunciations, or a list without any
/// recording, is refused.
pub proof fn lemma_acceptance_without_recording(r: WordResponce)
    ensures
        r.hwi.prs is None ==> response_accepted(r) && pronunciation_of(r) is None && audio_link_of(
            r,
        ) is None,
        r.hwi.prs is Some && r.hwi.prs->0@.len() == 0 ==> !response_accepted(r),
        r.hwi.prs is Some && (forall|j: int|
            0 <= j < r.hwi.prs->0@.len() ==> (#[trigger] r.hwi.prs->0@[j]).sound is None)
            ==> !response_accepted(r),
{
    if r.hwi.prs is Some {
        let v = r.hwi.prs->0@;
        if forall|j: int| 0 <= j < v.len() ==> (#[trigger] v[j]).sound is None {
            lemma_no_sound(v);
        }
    }
}

/// Law: where pronunciation `i` has the first recording, of any number of
/// pronunciations (one or more), the entry is accepted exactly when that
/// recording's name has a directory; its link is then the media address, the
/// directory, '/', the name and ".ogg"; and its written pronunciation is that of
/// the first pronunciation (empty where it has none).
pub proof fn lemma_acceptance_by_first_recording(r: WordResponce, i: int)
    requires
        r.hwi.prs is Some,
        0 <= i < r.hwi.prs->0@.len(),
        r.hwi.prs->0@[i].sound is Some,
        forall|j: int| 0 <= j < i ==> (#[trigger] r.hwi.prs->0@[j]).sound is None,
    ensures
        ({
            let v = r.hwi.prs->0@;
            let name = v[i].sound->0.audio@;
            &&& response_accepted(r) <==> audio_subdir(name) is Some
            &&& audio_link_of(r) == match audio_subdir(name) {
                Some(d) => Some(media_base() + d + seq!['/'] + name + seq!['.', 'o', 'g', 'g']),
                None => None,
            }
            &&& pronunciation_of(r) == Some(
                match v[0].mw {
                    Some(m) => m@,
                    None => Seq::<char>::empty(),
                },
            )
        }),
{
    lemma_first_sound_at(r.hwi.prs->0@, i);
}

/// `f` is the word entry made from `r`.
pub open spec fn describes(f: WordFinder, r: WordResponce) -> bool {
    &&& f.word@ == r.meta.id@
    &&& f.offensive == r.meta.offensive
    &&& f.headword@ == r.hwi.hw@
    &&& f.pronunciation.deep_view() == pronunciation_of(r)
    &&& f.audio_link.deep_view() == audio_link_of(r)
    &&& f.definition.deep_view() == r.shortdef.deep_view()
}

/// The part of `s` before its first ':' (all of `s` where it has none).
pub open spec fn before_colon(s: Seq<char>) -> Seq<char>
    decreases s.len(),
{
    if s.len() == 0 {
        s
    } else if s[0] == ':' {
        Seq::empty()
    } else {
        seq![s[0]] + before_colon(s.drop_first())
    }
}

/// The text that presents an entry: its word, its pronunciation where it has one,
/// and its definitions as a list.
pub open spec fn display_text(
    word: Seq<char>,
    pronunciation: Option<Seq<char>>,
    definition: Seq<Seq<char>>,
) -> Seq<char> {
    "word: "@ + before_colon(word) + "\n"@ + match pronunciation {
        Some(p) => "pronunciation: "@ + p + "\n"@,
        None => Seq::empty(),
    } + "definitions:\n\t- "@ + join(definition, "\n\t- "@) + "\n"@
}

/// The head of a presented text: everything before the first definition.
pub open spec fn display_head(word: Seq<char>, pronunciation: Option<Seq<char>>) -> Seq<char> {
    "word: "@ + before_colon(word) + "\n"@ + match pronunciation {
        Some(p) => "pronunciation: "@ + p + "\n"@,
        None => Seq::empty(),
    } + "definitions:\n\t- "@
}

/// Law: after its head, the presented text lists every definition in order,
/// part `i` at offset `part_offset(definition, 4, i)`, each two parts with the
/// marker "\n\t- " between them, and ends with a line end after the last one.
pub proof fn lemma_display_lists_definitions(
    word: Seq<char>,
    pronunciation: Option<Seq<char>>,
    definition: Seq<Seq<char>>,
)
    ensures
        ({
            let t = display_text(word, pronunciation, definition);
            let h = display_head(word, pronunciation).len() as int;
            let n = definition.len() as int;
            &&& t.subrange(0, h) == display_head(word, pronunciation)
            &&& n == 0 ==> t.len() == h + 1
            &&& n > 0 ==> t.len() == h + part_offset(definition, 4, n - 1) + definition[n - 1].len() + 1
            &&& forall|i: int|
                0 <= i < n ==> #[trigger] t.subrange(
                    h + part_offset(definition, 4, i),
                    h + part_offset(definition, 4, i) + definition[i].len(),
                ) == definition[i]
            &&& forall|i: int|
                0 <= i < n - 1 ==> #[trigger] t.subrange(
                    h + part_offset(definition, 4, i) + definition[i].len(),
                    h + part_offset(definition, 4, i + 1),
                ) == "\n\t- "@
            &&& t.len() > 0 && t[t.len() - 1] == '\n'
        }),
{
    reveal_strlit("\n\t- ");
    reveal_strlit("\n");
    let sep = "\n\t- "@;
    let head = display_head(word, pronunciation);
    let j = join(definition, sep);
    let t = display_text(word, pronunciation, definition);
    let h = head.len() as int;
    let n = definition.len() as int;
    assert(t =~= head + j + "\n"@);
    assert(t.subrange(0, h) =~= head);
    if n == 0 {
        assert(j.len() == 0);
    } else {
        lemma_join_len(definition, sep);
    }
    assert forall|i: int| 0 <= i < n implies #[trigger] t.subrange(
        h + part_offset(definition, 4, i),
        h + part_offset(definition, 4, i) + definition[i].len(),
    ) == definition[i] by {
        lemma_join_part(definition, sep, i);
        lemma_subrange_in_middle(head, j, "\n"@, part_offset(definition, 4, i), part_offset(definition, 4, i)
            + definition[i].len());
    }
    assert forall|i: int| 0 <= i < n - 1 implies #[trigger] t.subrange(
        h + part_offset(definition, 4, i) + definition[i].len(),
        h + part_offset(definition, 4, i + 1),
    ) == "\n\t- "@ by {
        lemma_join_sep(definition, sep, i);
        lemma_subrange_in_middle(head, j, "\n"@, part_offset(definition, 4, i) + definition[i].len(),
            part_offset(definition, 4, i + 1));
    }
}

/// A window of the middle part of a concatenation.
proof fn lemma_subrange_in_middle(x: Seq<char>, y: Seq<char>, z: Seq<char>, a: int, b: int)
    requires
        0 <= a <= b <= y.len(),
    ensures
        (x + y + z).subrange(x.len() + a, x.len() + b) == y.subrange(a, b),
{
    assert((x + y + z).subrange(x.len() + a, x.len() + b) =~= y.subrange(a, b));
}

/// Law: the word shown is a prefix of the entry's id and holds no ':'; where the
/// id holds no ':', it is the whole id.
pub proof fn lemma_before_colon(s: Seq<char>)
    ensures
        before_colon(s).len() <= s.len(),
        before_colon(s) =~= s.take(before_colon(s).len() as int),
        !before_colon(s).contains(':'),
        !s.contains(':') ==> before_colon(s) == s,
        before_colon(s).len() < s.len() ==> s[before_colon(s).len() as int] == ':',
    decreases s.len(),
{
    if s.len() == 0 {
    } else if s[0] == ':' {
        assert(s.contains(':'));
    } else {
        let t = s.drop_first();
        lemma_before_colon(t);
        let b = before_colon(t);
        assert(s.take(b.len() as int + 1) =~= seq![s[0]] + t.take(b.len() as int));
        if (seq![s[0]] + b).contains(':') {
            let k = choose|k: int| 0 <= k < b.len() + 1 && (seq![s[0]] + b)[k] == ':';
            assert(b[k - 1] == ':');
        }
        if !s.contains(':') {
            assert forall|k: int| 0 <= k < t.len() implies t[k] != ':' by {
                assert(s[k + 1] == t[k]);
            }
            assert(seq![s[0]] + t =~= s);
        }
        if b.len() < t.len() {
            assert(s[b.len() as int + 1] == t[b.len() as int]);
        }
    }
}

/// Law: showing the word of a word already shown changes nothing.
pub proof fn lemma_before_colon_idempotent(s: Seq<char>)
    ensures
        before_colon(before_colon(s)) == before_colon(s),
{
    lemma_before_colon(s);
    lemma_before_colon(before_colon(s));
}

/// Whether `s` is longer than `k` bytes (2 or 3) and its first `k` bytes are the
/// characters `p0 p1` (and `p2` when `k` is 3); `None` where `s` is longer than
/// `k` bytes but byte `k` falls inside a character.
fn starts_with_longer(s: &str, p0: char, p1: char, p2: char, k: usize) -> (res: Option<bool>)
    requires
        k == 2 || k == 3,
    ensures
        match res {
            None => byte_len(s@) > k && byte_prefix(s@, k as nat) is None,
            Some(b) => !(byte_len(s@) > k && byte_prefix(s@, k as nat) is None) && b == (byte_len(
                s@,
            ) > k && byte_prefix(s@, k as nat) == Some(
                if k == 3 {
                    seq![p0, p1, p2]
                } else {
                    seq![p0, p1]
                },
            )),
        },
{
    if !byte_len_exceeds(s, k) {
        return Some(false);
    }
    match byte_prefix_chars(s, k) {
        None => None,
        Some(n) => {
            let ghost want = if k == 3 {
                seq![p0, p1, p2]
            } else {
                seq![p0, p1]
            };
            if n != k {
                assert(s@.take(n as int).len() != want.len());
                return Some(false);
            }
            let c0 = s.get_char(0);
            let c1 = s.get_char(1);
            let same = if k == 3 {
                let c2 = s.get_char(2);
                c0 == p0 && c1 == p1 && c2 == p2
            } else {
                c0 == p0 && c1 == p1
            };
            if same {
                assert(s@.take(n as int) =~= want);
            } else {
                assert(s@.take(n as int)[0] == c0);
                assert(s@.take(n as int)[1] == c1);
                if k == 3 {
                    assert(s@.take(n as int)[2] == s@[2]);
                }
                assert(s@.take(n as int) != want);
            }
            Some(same)
        },
    }
}

/// The sub-directory of recording `s` (see `audio_subdir`).
pub fn audio_dir(s: &str) -> (res: Option<String>)
    ensures
        res.deep_view() == audio_subdir(s@),
{
    match starts_with_longer(s, 'b', 'i', 'x', 3) {
        None => return None,
        Some(true) => {
            let r = String::from_str("bix");
            proof {
                reveal_strlit("bix");
            }
            return Some(r);
        },
        Some(false) => {},
    }
    match starts_with_longer(s, 'g', 'g', 'g', 2) {
        None => return None,
        Some(true) => {
            let r = String::from_str("gg");
            proof {
                reveal_strlit("gg");
            }
            return Some(r);
        },
        Some(false) => {},
    }
    let len = s.unicode_len();
    if len == 0 {
        return None;
    }
    let c = s.get_char(0);
    if is_alphabetic(c) {
        match byte_prefix_chars(s, 1) {
            None => None,
            Some(n) => Some(String::from_str(s.substring_char(0, n))),
        }
    } else {
        let r = String::from_str("number");
        proof {
            reveal_strlit("number");
        }
        Some(r)
    }
}

/// The link to recording `s`, or `None` where no link can be formed.
pub fn audio_link_for(s: &str) -> (res: Option<String>)
    ensures
        match audio_subdir(s@) {
            Some(d) => res.deep_view() == Some(audio_url(s@, d)),
            None => res is None,
        },
{
    match audio_dir(s) {
        None => None,
        Some(dir) => {
            let mut link = String::from_str("https://media.merriam-webster.com/audio/prons/en/us/ogg/");
            link.append(dir.as_str());
            link.append("/");
            link.append(s);
            link.append(".ogg");
            proof {
                reveal_strlit("/");
                reveal_strlit(".ogg");
                assert(link@ =~= audio_url(s@, dir@));
            }
            Some(link)
        },
    }
}

/// The index of the first pronunciation that has a recording.
fn first_sound_index(v: &Vec<WordAudioExample>) -> (res: Option<usize>)
    ensures
        match res {
            Some(i) => i < v@.len() && v@[i as int].sound is Some && first_sound(v@) == v@[i as int].sound,
            None => first_sound(v@) is None,
        },
{
    let n = v.len();
    let mut i: usize = 0;
    assert(v@.skip(0) =~= v@);
    while i < n
        invariant
            i <= n,
            n == v@.len(),
            first_sound(v@) == first_sound(v@.skip(i as int)),
        decreases n - i,
    {
        assert(v@.skip(i as int)[0] == v@[i as int]);
        if v[i].sound.is_some() {
            return Some(i);
        }
        assert(v@.skip(i as int).drop_first() =~= v@.skip(i + 1));
        i = i + 1;
    }
    None
}

impl WordFinder {
    /// Whether `r` can be turned into a `WordFinder` (see `response_accepted`).
    pub fn accepts(r: &WordResponce) -> (res: bool)
        ensures
            res == response_accepted(*r),
    {
        match &r.hwi.prs {
            None => true,
            Some(v) => {
                if v.len() == 0 {
                    return false;
                }
                match first_sound_index(v) {
                    None => false,
                    Some(i) => match &v[i].sound {
                        Some(m) => audio_dir(m.audio.as_str()).is_some(),
                        None => false,
                    },
                }
            },
        }
    }

    /// The word entry made from one entry of the dictionary reply.
    pub fn from_wordresponce(wordresponce: WordResponce) -> (res: WordFinder)
        requires
            response_accepted(wordresponce),
        ensures
            describes(res, wordresponce),
    {
        let ghost r = wordresponce;
        let WordResponce { meta, hwi, shortdef } = wordresponce;
        let WordAudio { hw, prs } = hwi;
        let (pronunciation, audio_link) = match &prs {
            None => (None, None),
            Some(v) => {
                let pron = match &v[0].mw {
                    Some(m) => m.clone(),
                    None => String::new(),
                };
                let link = match first_sound_index(v) {
                    Some(i) => match &v[i].sound {
                        Some(m) => audio_link_for(m.audio.as_str()),
                        None => None,
                    },
                    None => None,
                };
                (Some(pron), link)
            },
        };
        WordFinder {
            word: meta.id,
            offensive: meta.offensive,
            headword: hw,
            pronunciation,
            audio_link,
            definition: shortdef,
        }
    }

    /// The word entry made from `r`, or `None` where `r` is not accepted.
    pub fn try_from_wordresponce(r: WordResponce) -> (res: Option<WordFinder>)
        ensures
            res is Some <==> response_accepted(r),
            res matches Some(f) ==> describes(f, r),
    {
        if Self::accepts(&r) {
            Some(Self::from_wordresponce(r))
        } else {
            None
        }
    }

    /// The address of the lookup of `word` with key `api`; an empty word is
    /// answered at once with an empty list of suggestions.
    pub fn lookup_url(api: &str, word: &str) -> (res: Result<String, Vec<String>>)
        ensures
            word@.len() == 0 ==> (res matches Err(l) && l@.len() == 0),
            word@.len() > 0 ==> (res matches Ok(u) && u@ == lookup_base() + word@ + "?key="@
                + api@),
    {
        if word.unicode_len() == 0 {
            return Err(Vec::new());
        }
        let mut url = String::from_str("https://dictionaryapi.com/api/v3/references/collegiate/json/");
        url.append(word);
        url.append("?key=");
        url.append(api);
        Ok(url)
    }

    /// What a lookup gives, from the reply read as a list of entries (`None`
    /// where it is none) and the reply read as a list of suggestions (`None`
    /// where it is none): the first entry, when there is one; no suggestions,
    /// when the list of entries is empty; else the suggestions. `None` where no
    /// answer can be given: the first entry is not accepted, or the reply is
    /// neither list.
    pub fn from_parsed_reply(
        entries: Option<Vec<WordResponce>>,
        suggestions: Option<Vec<String>>,
    ) -> (res: Option<Result<WordFinder, Vec<String>>>)
        ensures
            match entries {
                Some(v) => if v@.len() > 0 {
                    &&& (res is Some <==> response_accepted(v@[0]))
                    &&& res matches Some(x) ==> (x matches Ok(f) && describes(f, v@[0]))
                } else {
                    res matches Some(Err(l)) && l@.len() == 0
                },
                None => match suggestions {
                    Some(l) => res matches Some(Err(x)) && x.deep_view() == l.deep_view(),
                    None => res is None,
                },
            },
    {
        match entries {
            Some(mut v) => {
                if v.len() > 0 {
                    let first = v.swap_remove(0);
                    match Self::try_from_wordresponce(first) {
                        Some(f) => Some(Ok(f)),
                        None => None,
                    }
                } else {
                    Some(Err(Vec::new()))
                }
            },
            None => match suggestions {
                Some(l) => Some(Err(l)),
                None => None,
            },
        }
    }

    /// What a lookup gives, from the reply's entries (`None` where the reply is
    /// no list of entries) and the reply's text, which is read as a list of
    /// suggestions only where it holds no entries (see `from_parsed_reply`).
    pub fn from_reply(entries: Option<Vec<WordResponce>>, body: &str) -> (res: Option<
        Result<WordFinder, Vec<String>>,
    >)
        ensures
            match entries {
                Some(v) => if v@.len() > 0 {
                    &&& (res is Some <==> response_accepted(v@[0]))
                    &&& res matches Some(x) ==> (x matches Ok(f) && describes(f, v@[0]))
                } else {
                    res matches Some(Err(l)) && l@.len() == 0
                },
                None => match json_string_list(body@) {
                    Some(l) => res matches Some(Err(x)) && x.deep_view() == l,
                    None => res is None,
                },
            },
    {
        let suggestions = match &entries {
            Some(_) => None,
            None => parse_string_list(body),
        };
        Self::from_parsed_reply(entries, suggestions)
    }

    /// The word of the entry: its id up to the first ':'.
    pub fn get_word(&self) -> (res: String)
        ensures
            res@ == before_colon(self.word@),
    {
        let s = self.word.as_str();
        let len = s.unicode_len();
        let mut i: usize = 0;
        assert(s@.take(0) + before_colon(s@.skip(0)) =~= before_colon(s@)) by {
            assert(s@.skip(0) =~= s@);
        }
        while i < len
            invariant
                i <= len,
                len == s@.len(),
                s@ == self.word@,
                before_colon(s@) == s@.take(i as int) + before_colon(s@.skip(i as int)),
                forall|k: int| 0 <= k < i ==> s@[k] != ':',
            decreases len - i,
        {
            let c = s.get_char(i);
            let ghost rest = s@.skip(i as int);
            assert(rest[0] == c);
            if c == ':' {
                assert(before_colon(rest) == Seq::<char>::empty());
                assert(s@.take(i as int) + Seq::<char>::empty() =~= s@.take(i as int));
                let res = String::from_str(s.substring_char(0, i));
                assert(s@.subrange(0, i as int) =~= s@.take(i as int));
                return res;
            }
            assert(rest.drop_first() =~= s@.skip(i + 1));
            assert(s@.take(i + 1) =~= s@.take(i as int) + seq![c]);
            assert(s@.take(i as int) + (seq![c] + before_colon(rest.drop_first())) =~= s@.take(
                i + 1,
            ) + before_colon(s@.skip(i + 1)));
            i = i + 1;
        }
        proof {
            if i == len {
                assert(s@.skip(i as int).len() == 0);
                assert(s@.take(i as int) + Seq::<char>::empty() =~= s@.take(i as int));
            }
        }
        let res = String::from_str(s.substring_char(0, i));
        assert(s@.subrange(0, i as int) =~= s@.take(i as int));
        res
    }

    /// The link to the recording of the word, where there is one.
    pub fn get_audio_link(&self) -> (res: Option<String>)
        ensures
            res.deep_view() == self.audio_link.deep_view(),
    {
        match &self.audio_link {
            Some(l) => Some(l.clone()),
            None => None,
        }
    }

    /// The text that presents the entry (see `display_text`).
    pub fn to_display_string(&self) -> (res: String)
        ensures
            res@ == display_text(
                self.word@,
                self.pronunciation.deep_view(),
                self.definition.deep_view(),
            ),
    {
        let mut out = String::from_str("word: ");
        let w = self.get_word();
        out.append(w.as_str());
        out.append("\n");
        match &self.pronunciation {
            Some(p) => {
                out.append("pronunciation: ");
                out.append(p.as_str());
                out.append("\n");
            },
            None => {},
        }
        out.append("definitions:\n\t- ");
        let defs = join_strings(&self.definition, "\n\t- ");
        out.append(defs.as_str());
        out.append("\n");
        proof {
            let pv = self.pronunciation.deep_view();
            let mid = match pv {
                Some(p) => "pronunciation: "@ + p + "\n"@,
                None => Seq::<char>::empty(),
            };
            assert(out@ =~= "word: "@ + before_colon(self.word@) + "\n"@ + mid
                + "definitions:\n\t- "@ + join(self.definition.deep_view(), "\n\t- "@) + "\n"@);
        }
        out
    }
}

} // verus!
