use explainer::dictionary::{
    audio_dir, audio_link_for, WordAudio, WordAudioExample, WordAudioMeta, WordFinder, WordMeta,
    WordResponce,
};

const BASE: &str = "https://media.merriam-webster.com/audio/prons/en/us/ogg/";

fn example(mw: Option<&str>, audio: Option<&str>) -> WordAudioExample {
    WordAudioExample {
        mw: mw.map(String::from),
        sound: audio.map(|a| WordAudioMeta { audio: String::from(a) }),
    }
}

fn response(id: &str, prs: Option<Vec<WordAudioExample>>, defs: &[&str]) -> WordResponce {
    WordResponce {
        meta: WordMeta { id: String::from(id), offensive: false },
        hwi: WordAudio { hw: String::from("ap*ple"), prs },
        shortdef: defs.iter().map(|d| String::from(*d)).collect(),
    }
}

#[test]
fn bix_names_have_their_own_directory() {
    assert_eq!(audio_link_for("bixabc").unwrap(), format!("{}bix/bixabc.ogg", BASE));
    assert_eq!(audio_dir("bixabc").unwrap(), "bix");
}

#[test]
fn bix_alone_goes_to_letter_directory() {
    assert_eq!(audio_link_for("bix").unwrap(), format!("{}b/bix.ogg", BASE));
}

#[test]
fn gg_names_have_their_own_directory() {
    assert_eq!(audio_link_for("ggabc01").unwrap(), format!("{}gg/ggabc01.ogg", BASE));
    assert_eq!(audio_link_for("gg").unwrap(), format!("{}g/gg.ogg", BASE));
}

#[test]
fn letter_names_go_to_letter_directory() {
    assert_eq!(audio_link_for("apple001").unwrap(), format!("{}a/apple001.ogg", BASE));
}

#[test]
fn other_names_go_to_number_directory() {
    assert_eq!(audio_link_for("3d000001").unwrap(), format!("{}number/3d000001.ogg", BASE));
    assert_eq!(audio_link_for("_x").unwrap(), format!("{}number/_x.ogg", BASE));
}

#[test]
fn names_without_a_link() {
    // empty name
    assert!(audio_link_for("").is_none());
    // a test on the first three bytes would cut a character
    assert!(audio_link_for("éé").is_none());
    // a test on the first two bytes would cut a character
    assert!(audio_link_for("日").is_none());
    // a letter that takes more than one byte
    assert!(audio_link_for("é").is_none());
}

#[test]
fn word_is_id_before_colon() {
    let f = WordFinder::from_wordresponce(response("apple:1", None, &["a fruit"]));
    assert_eq!(f.get_word(), "apple");
    let g = WordFinder::from_wordresponce(response("apple", None, &[]));
    assert_eq!(g.get_word(), "apple");
    let h = WordFinder::from_wordresponce(response(":x", None, &[]));
    assert_eq!(h.get_word(), "");
}

#[test]
fn entry_with_pronunciation_and_recording() {
    let r = response(
        "apple",
        Some(vec![example(Some("ˈa-pəl"), None), example(None, Some("apple001"))]),
        &["the fleshy fruit", "a tree"],
    );
    let f = WordFinder::from_wordresponce(r);
    assert_eq!(f.word, "apple");
    assert!(!f.offensive);
    assert_eq!(f.headword, "ap*ple");
    assert_eq!(f.pronunciation.as_deref(), Some("ˈa-pəl"));
    assert_eq!(f.get_audio_link().unwrap(), format!("{}a/apple001.ogg", BASE));
    assert_eq!(f.definition, vec![String::from("the fleshy fruit"), String::from("a tree")]);
    assert_eq!(
        f.to_display_string(),
        "word: apple\npronunciation: ˈa-pəl\ndefinitions:\n\t- the fleshy fruit\n\t- a tree\n"
    );
}

#[test]
fn entry_without_pronunciations() {
    let f = WordFinder::from_wordresponce(response("pear:2", None, &["a fruit"]));
    assert!(f.pronunciation.is_none());
    assert!(f.get_audio_link().is_none());
    assert_eq!(f.to_display_string(), "word: pear\ndefinitions:\n\t- a fruit\n");
}

#[test]
fn first_pronunciation_without_written_form_gives_empty_text() {
    let r = response("kiwi", Some(vec![example(None, Some("kiwi0001"))]), &["x"]);
    let f = WordFinder::from_wordresponce(r);
    assert_eq!(f.pronunciation.as_deref(), Some(""));
}

#[test]
fn entries_that_cannot_be_shown() {
    assert!(WordFinder::try_from_wordresponce(response("a", Some(vec![]), &[])).is_none());
    assert!(WordFinder::try_from_wordresponce(response("a", Some(vec![example(Some("x"), None)]), &[]))
        .is_none());
    assert!(WordFinder::try_from_wordresponce(response("a", Some(vec![example(None, Some(""))]), &[]))
        .is_none());
    assert!(!WordFinder::accepts(&response("a", Some(vec![]), &[])));
    assert!(WordFinder::accepts(&response("a", None, &[])));
}

#[test]
fn lookup_address() {
    assert_eq!(
        WordFinder::lookup_url("KEY", "apple").unwrap(),
        "https://dictionaryapi.com/api/v3/references/collegiate/json/apple?key=KEY"
    );
    assert_eq!(WordFinder::lookup_url("KEY", "").unwrap_err(), Vec::<String>::new());
}

#[test]
fn reply_with_entries_gives_first_entry() {
    let entries = vec![response("apple:1", None, &["one"]), response("apple:2", None, &["two"])];
    match WordFinder::from_reply(Some(entries), "") {
        Some(Ok(f)) => assert_eq!(f.definition, vec![String::from("one")]),
        _ => panic!("expected an entry"),
    }
}

#[test]
fn reply_with_no_entries_gives_no_suggestions() {
    match WordFinder::from_reply(Some(Vec::new()), "[]") {
        Some(Err(l)) => assert!(l.is_empty()),
        _ => panic!("expected an empty list"),
    }
}

#[test]
fn reply_with_suggestions() {
    match WordFinder::from_reply(None, "[\"apple\",\"apply\"]") {
        Some(Err(l)) => assert_eq!(l, vec![String::from("apple"), String::from("apply")]),
        _ => panic!("expected suggestions"),
    }
}

#[test]
fn reply_that_is_neither() {
    assert!(WordFinder::from_reply(None, "not json").is_none());
    assert!(WordFinder::from_reply(Some(vec![response("a", Some(vec![]), &[])]), "").is_none());
}

#[test]
fn shown_word_shows_itself() {
    let f = WordFinder::from_wordresponce(response("apple:1:2", None, &[]));
    let shown = f.get_word();
    let g = WordFinder::from_wordresponce(response(&shown, None, &[]));
    assert_eq!(g.get_word(), shown);
    assert!(!shown.contains(':'));
    assert!("apple:1:2".starts_with(shown.as_str()));
}

#[test]
fn parsed_reply_uses_suggestions_only_without_entries() {
    match WordFinder::from_parsed_reply(None, Some(vec![String::from("apple")])) {
        Some(Err(l)) => assert_eq!(l, vec![String::from("apple")]),
        _ => panic!("expected suggestions"),
    }
    assert!(WordFinder::from_parsed_reply(None, None).is_none());
    match WordFinder::from_parsed_reply(Some(vec![response("pear", None, &["p"])]), Some(vec![String::from("x")])) {
        Some(Ok(f)) => assert_eq!(f.word, "pear"),
        _ => panic!("expected the entry"),
    }
}
