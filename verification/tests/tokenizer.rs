use gpu_host::tokenizer::{
    decode_outcome, fits, init_failure, Gpt2Tokenizer, TokenizerError, ENDOFTEXT_TOKEN_ID,
    GPT2_VOCAB_SIZE,
};

#[test]
fn known_texts_have_known_tokens() {
    let t = Gpt2Tokenizer::new().unwrap();
    assert_eq!(t.encode("Hello world"), vec![15496, 995]);
    assert_eq!(t.encode("<|endoftext|>"), vec![ENDOFTEXT_TOKEN_ID]);
    assert_eq!(t.encode(""), Vec::<u32>::new());
}

#[test]
fn a_new_tokenizer_has_the_whole_vocabulary() {
    let t = Gpt2Tokenizer::new().unwrap();
    for byte in 0u8..128 {
        let text = (byte as char).to_string();
        let tokens = t.encode(&text);
        assert_eq!(tokens.len(), 1, "{byte}");
        assert!(tokens[0] < ENDOFTEXT_TOKEN_ID);
    }
    for id in 0..GPT2_VOCAB_SIZE as u32 {
        if let Err(e) = t.decode(&[id]) {
            assert!(e.message().contains("UTF-8"), "{id}: {}", e.message());
        }
    }
    assert_eq!(t.decode(&[ENDOFTEXT_TOKEN_ID]).unwrap(), "<|endoftext|>");
    assert!(t.decode(&[ENDOFTEXT_TOKEN_ID + 1]).is_err());
}

#[test]
fn a_text_is_split_by_the_pattern() {
    let t = Gpt2Tokenizer::new().unwrap();
    let mut pieces = Vec::new();
    for piece in ["I", "'ll", " meet", " 42", " ", " people", "!?"] {
        pieces.extend(t.encode(piece));
    }
    assert_eq!(t.encode("I'll meet 42  people!?"), pieces);
}

#[test]
fn texts_come_back() {
    let t = Gpt2Tokenizer::new().unwrap();
    for text in ["The meaning of life is", "  two  spaces\n\n", "äöü ∑ 🚀", "a<|endoftext|>b"] {
        assert!(fits(text));
        let tokens = t.encode(text);
        assert!(tokens.iter().all(|&id| (id as usize) < GPT2_VOCAB_SIZE));
        assert_eq!(t.decode(&tokens).unwrap(), text);
    }
}

#[test]
fn unknown_tokens_are_refused() {
    let t = Gpt2Tokenizer::new().unwrap();
    assert_eq!(t.vocab_size(), 50257);
    match t.decode(&[15496, 60000]) {
        Err(e @ TokenizerError::DecodeError(_)) => {
            assert!(e.message().starts_with("tokenizer decode error: "))
        }
        other => panic!("{other:?}"),
    }
}

#[test]
fn a_broken_character_is_refused() {
    let t = Gpt2Tokenizer::new().unwrap();
    let tokens = t.encode("🚀");
    assert!(tokens.len() > 1);
    assert!(t.decode(&tokens[0..1]).is_err());
}

#[test]
fn long_runs_do_not_fit() {
    for c in [" ", "\u{2003}", "x", "7", "!", "ä"] {
        assert!(fits(&c.repeat(999_998)), "{c:?}");
        assert!(!fits(&c.repeat(999_999)), "{c:?}");
        let other = if c.trim().is_empty() { "x" } else { " " };
        assert!(fits(&format!("{c}{other}").repeat(600_000)), "{c:?}");
    }
    // A blank in front of a run counts.
    assert!(fits(&(" ".to_string() + &"x".repeat(999_997))));
    assert!(!fits(&(" ".to_string() + &"x".repeat(999_998))));
    assert!(fits(&("\n".to_string() + &"x".repeat(999_998))));
    // Characters of different kinds end each other's runs.
    assert!(fits(&"x7!".repeat(400_000)));
}

#[test]
fn nothing_decodes_to_nothing() {
    let t = Gpt2Tokenizer::new().unwrap();
    assert_eq!(t.decode(&[]).unwrap(), "");
    assert_eq!(
        t.decode(&[15496, 50257, 60000]).unwrap_err().message(),
        "tokenizer decode error: Invalid token for decoding: 50257"
    );
}

#[test]
fn outcomes_are_passed_on() {
    assert_eq!(init_failure("x".into()).message(), "tokenizer init error: x");
    assert_eq!(decode_outcome(Ok("a".into())).unwrap(), "a");
    assert_eq!(
        decode_outcome(Err("bad".into())).unwrap_err().message(),
        "tokenizer decode error: bad"
    );
}
