use explainer::botlib::results::InlineRequest;
use explainer::botlib::ReplyMarkup;
use explainer::dictionary::{WordAudio, WordAudioExample, WordAudioMeta, WordFinder, WordMeta, WordResponce};
use explainer::replies::{answer_for_suggestion, inline_step, reply_for_lookup, InlineStep, LookupReply};

fn finder(id: &str, audio: Option<&str>) -> WordFinder {
    let prs = audio.map(|a| {
        vec![WordAudioExample {
            mw: Some(String::from("ˈa-pəl")),
            sound: Some(WordAudioMeta { audio: String::from(a) }),
        }]
    });
    WordFinder::from_wordresponce(WordResponce {
        meta: WordMeta { id: String::from(id), offensive: false },
        hwi: WordAudio { hw: String::from("ap*ple"), prs },
        shortdef: vec![String::from("a fruit")],
    })
}

fn voice(q: &InlineRequest) -> (String, String, Option<String>) {
    match q {
        InlineRequest::Voice { title, caption, voice_url } => (title.clone(), caption.clone(), voice_url.clone()),
        InlineRequest::Article { .. } => panic!("expected a voice request"),
    }
}

#[test]
fn found_word_is_sent_with_its_text() {
    let outcome = Ok(finder("apple:1", None));
    match reply_for_lookup("apple", &outcome) {
        LookupReply::Entry { caption } => assert_eq!(caption, "word: apple\ndefinitions:\n\t- a fruit\n"),
        _ => panic!("expected the entry"),
    }
}

#[test]
fn suggestions_become_buttons() {
    let outcome: Result<WordFinder, Vec<String>> = Err(vec![String::from("apple"), String::from("apply")]);
    match reply_for_lookup("appl", &outcome) {
        LookupReply::Suggestions { text, keyboard: ReplyMarkup::InlineKeyboard(k) } => {
            assert_eq!(text, "Word not found. Here are similar words");
            assert_eq!(k.inline_keyboard.len(), 2);
            assert_eq!(k.inline_keyboard[1].len(), 1);
            assert_eq!(k.inline_keyboard[1][0].text, "apply");
            assert_eq!(k.inline_keyboard[1][0].callback_data.as_deref(), Some("apply"));
        }
        _ => panic!("expected suggestions"),
    }
}

#[test]
fn unknown_word_is_reported() {
    let outcome: Result<WordFinder, Vec<String>> = Err(Vec::new());
    match reply_for_lookup("qwzx", &outcome) {
        LookupReply::NotFound { caption } => assert_eq!(caption, "Word: qwzx not found in english dictionary"),
        _ => panic!("expected a note"),
    }
}

#[test]
fn inline_answer_for_found_word() {
    let outcome = Ok(finder("apple:1", Some("apple001")));
    match inline_step(&outcome) {
        InlineStep::Answer(qs) => {
            assert_eq!(qs.len(), 2);
            let (t0, c0, u0) = voice(&qs[0]);
            assert_eq!(t0, "Definition of word apple");
            assert!(c0.starts_with("word: apple\n"));
            assert_eq!(u0.as_deref(), Some("https://media.merriam-webster.com/audio/prons/en/us/ogg/a/apple001.ogg"));
            let (t1, c1, u1) = voice(&qs[1]);
            assert_eq!(t1, "It's pronounciation");
            assert_eq!(c1, "");
            assert_eq!(u1, u0);
        }
        InlineStep::LookUp(_) => panic!("expected an answer"),
    }
}

#[test]
fn inline_answer_looks_up_first_suggestion() {
    let outcome: Result<WordFinder, Vec<String>> = Err(vec![String::from("apple"), String::from("apply")]);
    match inline_step(&outcome) {
        InlineStep::LookUp(w) => assert_eq!(w, "apple"),
        InlineStep::Answer(_) => panic!("expected a lookup"),
    }
    let qs = answer_for_suggestion("apple", &finder("apple", None));
    let (t0, _, u0) = voice(&qs[0]);
    assert_eq!(t0, "Definition for word apple");
    assert!(u0.is_none());
}

#[test]
fn inline_answer_without_word() {
    let outcome: Result<WordFinder, Vec<String>> = Err(Vec::new());
    match inline_step(&outcome) {
        InlineStep::Answer(qs) => {
            let (t0, c0, u0) = voice(&qs[0]);
            assert_eq!((t0.as_str(), c0.as_str()), ("No word found", "No word found"));
            assert!(u0.is_none());
        }
        InlineStep::LookUp(_) => panic!("expected an answer"),
    }
}
