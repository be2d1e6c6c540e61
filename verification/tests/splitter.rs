use vanling::splitter::Splitter;

#[test]
fn test_splitter_abbreviation_not_split() {
    let mut splitter = Splitter::new();
    let r1 = splitter.accept_token("Dr. Smith said hello.");
    let r2 = splitter.accept_final();
    let all: Vec<String> = r1.into_iter().chain(r2.into_iter()).collect();
    let joined = all.join("");
    assert!(
        joined.contains("Dr. Smith"),
        "should not split on abbreviation 'Dr.': {joined:?}"
    );
}

#[test]
fn test_splitter_chinese_sentences() {
    let mut splitter = Splitter::new();
    let tokens = vec![
        "你", "好", "世", "界", "。", "今", "天", "天", "气", "不", "错", "！",
    ];
    let mut all = Vec::new();
    for token in tokens {
        let r = splitter.accept_token(token);
        all.extend(r);
    }
    let r_final = splitter.accept_final();
    all.extend(r_final);
    assert!(all.len() >= 2, "should split Chinese sentences: {all:?}");
}

#[test]
fn test_splitter_english_sentences() {
    let mut splitter = Splitter::new();
    let tokens = vec![
        "H", "e", "l", "l", "o", " ", "w", "o", "r", "l", "d", ".", " ", "H", "o", "w", " ", "a",
        "r", "e", " ", "y", "o", "u", "?", " ", "I", " ", "a", "m", " ", "f", "i", "n", "e", "!",
    ];
    let mut all = Vec::new();
    for token in tokens {
        let r = splitter.accept_token(token);
        all.extend(r);
    }
    let r_final = splitter.accept_final();
    all.extend(r_final);
    assert!(all.len() >= 3, "should split English sentences: {all:?}");
}

#[test]
fn test_splitter_mixed_content() {
    let mut splitter = Splitter::new();
    let tokens = vec![
        "2", "0", "2", "4", "年", "5", "月", "1", "1", "号", "，", "拨", "打", "1", "1", "0", "。",
    ];
    let mut all = Vec::new();
    for token in tokens {
        let r = splitter.accept_token(token);
        all.extend(r);
    }
    let r_final = splitter.accept_final();
    all.extend(r_final);
    assert!(!all.is_empty(), "should produce output from mixed content");
    let joined = all.join("");
    assert!(joined.contains("2024"), "should preserve content: {joined}");
}

#[test]
fn test_splitter_empty() {
    let mut splitter = Splitter::new();
    let r1 = splitter.accept_token("");
    let r2 = splitter.accept_final();
    assert!(r1.is_empty());
    assert!(r2.is_empty());
}

#[test]
fn test_splitter_streaming_accumulation() {
    let mut splitter = Splitter::new();
    let r1 = splitter.accept_token("你");
    assert!(r1.is_empty(), "partial text should not yield sentences");
    let r2 = splitter.accept_token("好");
    assert!(r2.is_empty(), "partial text should not yield sentences");
    let r3 = splitter.accept_token("世");
    assert!(r3.is_empty(), "partial text should not yield sentences");
    let r4 = splitter.accept_token("界");
    assert!(r4.is_empty(), "partial text should not yield sentences");
    let r5 = splitter.accept_token("。");
    let r_final = splitter.accept_final();
    let all: Vec<String> = r5.into_iter().chain(r_final.into_iter()).collect();
    assert!(!all.is_empty(), "should yield after full sentence arrives");
}

#[test]
fn test_splitter_chinese_clause_split() {
    let mut splitter = Splitter::new();
    let long_text = "这是一个很长的句子，包含多个从句，我们需要验证从句级分句是否正常工作，特别是对于中文文本的处理，当我们遇到长句子时应该能够正确地在从句边界进行分割，这样可以显著降低首字延时，提升用户体验，这是语音助手的关键优化点。";
    let mut all = Vec::new();
    for token in long_text.chars() {
        let mut buf = [0; 4];
        let token_str = token.encode_utf8(&mut buf);
        let r = splitter.accept_token(token_str);
        all.extend(r);
    }
    let r_final = splitter.accept_final();
    all.extend(r_final);
    assert!(all.len() > 1, "long sentence should be split: {all:?}");
    for chunk in &all {
        assert!(chunk.len() <= 250, "chunk too long: {}", chunk.len());
    }
}

#[test]
fn test_splitter_timeout_flush() {
    let mut splitter = Splitter::new();
    let tokens = vec![
        "这", "是", "一", "个", "没", "有", "标", "点", "的", "长", "文", "本",
    ];
    let mut all = Vec::new();
    for token in tokens {
        let r = splitter.accept_token(token);
        all.extend(r);
    }
    assert!(all.is_empty(), "should not yield without punctuation");
}

#[test]
fn test_splitter_token_first_chunk() {
    let mut splitter = Splitter::new();
    let r1 = splitter.accept_token("你");
    assert!(r1.is_empty(), "should not yield without punctuation");
    let r2 = splitter.accept_token("好");
    assert!(r2.is_empty(), "should not yield without punctuation");
    let r3 = splitter.accept_token("！");
    assert!(!r3.is_empty(), "should yield on punctuation boundary");
    assert!(!r3[0].is_empty(), "chunk should not be empty");
}

#[test]
fn test_splitter_token_max_chars() {
    let mut splitter = Splitter::new();
    let mut tokens = Vec::new();
    for i in 0..10 {
        tokens.push(format!("字{}", i));
    }
    let mut chunk_emitted = false;
    for token in &tokens {
        let r = splitter.accept_token(token);
        if !r.is_empty() {
            assert!(!r[0].is_empty(), "chunk should not be empty");
            chunk_emitted = true;
            break;
        }
    }
    assert!(!chunk_emitted, "should not emit without punctuation");
}

#[test]
fn test_splitter_two_phase_integration() {
    let mut splitter = Splitter::new();
    let _r1 = splitter.accept_token("你");
    let _r2 = splitter.accept_token("好");
    let r3 = splitter.accept_token("！");
    let _r4 = splitter.accept_token("今");
    let _r5 = splitter.accept_token("天");
    let _r6 = splitter.accept_token("天");
    let _r7 = splitter.accept_token("气");
    let _r8 = splitter.accept_token("不");
    let _r9 = splitter.accept_token("错");
    let r10 = splitter.accept_token("！");
    let r_final = splitter.accept_final();
    let all: Vec<String> = r3
        .into_iter()
        .chain(r10.into_iter())
        .chain(r_final.into_iter())
        .collect();
    assert!(
        !all.is_empty(),
        "should produce output from two-phase processing"
    );
    assert!(all.len() >= 2, "should split sentences: {all:?}");
}

#[test]
fn test_splitter_no_duplication() {
    let mut splitter = Splitter::new();
    let tokens = vec![
        "你", "好", "！", "有", "什", "么", "我", "可", "以", "帮", "助", "您", "吗", "？",
    ];
    let mut all = Vec::new();
    let mut seen = String::new();
    for token in tokens {
        let r = splitter.accept_token(token);
        for chunk in &r {
            assert!(
                !seen.contains(chunk),
                "duplication detected: chunk '{}' already in '{}'",
                chunk,
                seen
            );
            seen.push_str(chunk);
        }
        all.extend(r);
    }
    let r_final = splitter.accept_final();
    all.extend(r_final);
    let joined = all.join("");
    assert!(joined.contains("你好"), "should contain '你好'");
    assert!(
        joined.contains("有什么我可以帮助您吗"),
        "should contain full sentence: {joined}"
    );
}

#[test]
fn first_chunk_waits_for_non_blank_text() {
    let mut splitter = Splitter::new();
    // A lone space closes on a boundary but carries nothing to say.
    assert!(splitter.accept_token(" ").is_empty());
    assert_eq!(splitter.accept_token("好，"), vec![" 好，".to_string()]);
}

#[test]
fn later_text_goes_out_sentence_by_sentence() {
    let mut splitter = Splitter::new();
    assert_eq!(splitter.accept_token("嗨！"), vec!["嗨！".to_string()]);
    let out = splitter.accept_token("今天天气很好。明天会下雨。");
    assert_eq!(out, vec!["今天天气很好。".to_string()]);
    assert_eq!(splitter.accept_final(), vec!["明天会下雨。".to_string()]);
}

#[test]
fn markdown_is_stripped_after_the_first_chunk() {
    let mut splitter = Splitter::new();
    assert_eq!(splitter.accept_token("好的。"), vec!["好的。".to_string()]);
    // Bold runs, links and line feeds are removed whole before cutting.
    assert!(splitter.accept_token("看**这里**吧").is_empty());
    assert!(splitter.accept_token("\n").is_empty());
    assert!(splitter.accept_token("[链接](http://x.y)").is_empty());
    assert_eq!(splitter.accept_final(), vec!["看吧".to_string()]);
}

#[test]
fn final_flush_sends_the_gathered_tokens_first() {
    let mut splitter = Splitter::new();
    assert!(splitter.accept_token("还没").is_empty());
    assert_eq!(splitter.accept_final(), vec!["还没".to_string()]);
    // Nothing is held afterwards.
    assert!(splitter.accept_final().is_empty());
}

#[test]
fn an_over_long_sentence_is_cut_after_clause_marks_without_losing_text() {
    let mut splitter = Splitter::new();
    assert_eq!(splitter.accept_token("嗯，"), vec!["嗯，".to_string()]);
    let clause = "这是一个相当长的从句内容用于测试分割效果";
    let mut sentence = String::new();
    for _ in 0..6 {
        sentence.push_str(clause);
        sentence.push('，');
    }
    sentence.push_str("结束。");
    let mut all = splitter.accept_token(&sentence);
    all.extend(splitter.accept_final());
    assert!(all.len() > 1, "cut into clauses: {all:?}");
    assert_eq!(all.concat(), sentence);
    for piece in &all[..all.len() - 1] {
        assert!(piece.ends_with('，'));
        assert!(piece.len() >= 125);
    }
}

#[test]
fn default_starts_like_new() {
    let mut splitter = Splitter::default();
    assert_eq!(splitter.accept_token("a."), vec!["a.".to_string()]);
}

#[test]
fn try_accept_token_answers_like_accept_token() {
    let mut plain = Splitter::new();
    let mut tried = Splitter::new();
    for token in ["你好。", "**今天**", "天气不错！", "明天"] {
        let expected = plain.accept_token(token);
        assert_eq!(tried.try_accept_token(token), Some(expected));
    }
}

#[test]
fn a_timed_out_flush_speaks_the_collected_text() {
    let mut splitter = Splitter::new();
    let first = splitter.accept_token("你好。");
    assert_eq!(first, vec!["你好。".to_string()]);
    let _ = splitter.accept_token("abc");
    assert!(splitter.flush_if_timed_out(false).is_empty());
    assert_eq!(splitter.flush_if_timed_out(true), vec!["abc".to_string()]);
    assert!(splitter.flush_if_timed_out(true).is_empty());
}

#[test]
fn white_space_covers_the_unicode_property() {
    let mut splitter = Splitter::new();
    assert!(splitter.accept_token("\u{3000}\u{3000}").is_empty());
}
