use executive::injection::{
    append_activated_skills, append_core_memory, composite_recall_plan, fact_recall_query,
    memory_update_block, CoreMemoryBlock,
    MAX_ACTIVATED_SKILLS_TOTAL_CHARS, MAX_ACTIVATED_SKILL_CHARS,
};

#[test]
fn activated_skills_are_wrapped_in_order() {
    let mut message = String::from("hi");
    append_activated_skills(&mut message, &vec!["one".to_string(), "two".to_string()]);
    assert_eq!(
        message,
        "hi\n<activated-skill>\none\n</activated-skill>\n\n<activated-skill>\ntwo\n</activated-skill>\n"
    );
}

#[test]
fn no_matched_skill_leaves_the_message_alone() {
    let mut message = String::from("plain");
    append_activated_skills(&mut message, &Vec::new());
    assert_eq!(message, "plain");
}

#[test]
fn activated_skills_stay_within_their_allowances() {
    let huge = "x".repeat(13_000);
    let mut message = String::new();
    append_activated_skills(&mut message, &vec![huge.clone(), huge.clone(), huge]);
    assert_eq!(message.matches("<activated-skill>").count(), 2);
    let xs = message.chars().filter(|c| *c == 'x').count();
    // each body is cut to its own limit, with one ellipsis in its last place
    assert_eq!(xs, 2 * (MAX_ACTIVATED_SKILL_CHARS - 1));
    assert_eq!(message.matches('\u{2026}').count(), 2);
    assert!(xs + 2 <= MAX_ACTIVATED_SKILLS_TOTAL_CHARS);
}

#[test]
fn memory_block_lists_each_update() {
    let block = memory_update_block(&vec!["a".to_string(), "b".to_string()]);
    assert_eq!(block, "<memory-update>\n- a\n- b\n</memory-update>");
}

#[test]
fn memory_block_is_empty_without_updates() {
    assert_eq!(memory_update_block(&Vec::new()), "");
}

#[test]
fn short_messages_skip_composite_recall() {
    assert_eq!(composite_recall_plan("short"), None);
    assert_eq!(composite_recall_plan("   abc   \n"), None);
    assert_eq!(composite_recall_plan("\u{5386}\u{53f2}"), None);
}

#[test]
fn commands_skip_composite_recall() {
    assert_eq!(composite_recall_plan("   /compact the session now"), None);
}

#[test]
fn history_markers_include_superseded_memories() {
    assert_eq!(composite_recall_plan("show me the history of x"), Some(true));
    assert_eq!(composite_recall_plan("Which decisions were SUPERSEDED?"), Some(true));
    assert_eq!(composite_recall_plan("\u{5386}\u{53f2}\u{51b3}\u{7b56}\u{662f}"), Some(true));
}

#[test]
fn plain_messages_recall_current_memories() {
    assert_eq!(composite_recall_plan("tell me about the plan"), Some(false));
}

fn block(label: &str, value: &str, read_only: bool) -> CoreMemoryBlock {
    CoreMemoryBlock { label: label.into(), value: value.into(), read_only }
}

/// The section as the daemon turn writes it with `str::lines`.
fn reference_section(blocks: &[CoreMemoryBlock]) -> String {
    let mut core_lines = Vec::new();
    for block in blocks {
        if block.read_only || block.value.is_empty() {
            continue;
        }
        for line in block.value.lines() {
            if !line.trim().is_empty() {
                core_lines.push(format!("[core:{}] {}", block.label, line));
            }
        }
    }
    let mut out = String::new();
    if !core_lines.is_empty() {
        out.push_str("\n[Core Memory \u{2014} current state]\n");
        for line in &core_lines {
            out.push_str(line);
            out.push('\n');
        }
    }
    out
}

#[test]
fn core_memory_lists_writable_non_blank_lines() {
    let blocks = vec![
        block("persona", "Helpful\r\n\n  \nkind\n", false),
        block("system", "hidden", true),
        block("empty", "", false),
        block("human", "a\rb", false),
    ];
    let mut message = String::from("msg");
    append_core_memory(&mut message, &blocks);
    assert_eq!(
        message,
        "msg\n[Core Memory \u{2014} current state]\n[core:persona] Helpful\n[core:persona] kind\n[core:human] a\rb\n"
    );
    assert_eq!(message, format!("msg{}", reference_section(&blocks)));
}

#[test]
fn core_memory_without_lines_adds_nothing() {
    let blocks = vec![block("system", "x", true), block("blank", " \n\t\r\n", false)];
    let mut message = String::from("msg");
    append_core_memory(&mut message, &blocks);
    assert_eq!(message, "msg");
}

#[test]
fn core_memory_lines_split_as_str_lines_does() {
    for value in ["one", "one\n", "one\r\ntwo", "\r\n", "x\r", "\n\nlast", "a\n\r\nb\r\r\n"] {
        let blocks = vec![block("l", value, false)];
        let mut message = String::new();
        append_core_memory(&mut message, &blocks);
        assert_eq!(message, reference_section(&blocks), "value {value:?}");
    }
}

/// The query as the daemon turn builds it.
fn reference_query(message: &str) -> Option<String> {
    let keywords: Vec<String> = message
        .split_whitespace()
        .filter(|w| w.len() > 3)
        .map(|w| w.to_lowercase())
        .collect();
    let query = keywords.join(" ");
    if query.len() < 8 {
        None
    } else {
        Some(query)
    }
}

#[test]
fn fact_recall_query_keeps_long_words_lowercased() {
    assert_eq!(fact_recall_query("the QUICK brown fox"), Some("quick brown".to_string()));
    assert_eq!(fact_recall_query("  alpha\tbeta\n gamma  "), Some("alpha beta gamma".to_string()));
    assert_eq!(fact_recall_query("\u{dc}ber Stra\u{df}e"), Some("\u{fc}ber stra\u{df}e".to_string()));
    assert_eq!(fact_recall_query("tiny word"), Some("tiny word".to_string()));
}

#[test]
fn short_fact_queries_skip_recall() {
    assert_eq!(fact_recall_query("a bb ccc"), None);
    assert_eq!(fact_recall_query("tiny"), None);
    assert_eq!(fact_recall_query(""), None);
}

#[test]
fn fact_recall_query_matches_split_whitespace() {
    for message in ["one two three four", "\u{3000}wide\u{3000}space words", "x\u{a0}yyyy zzzz", "MiXeD CaSe WoRdS"] {
        assert_eq!(fact_recall_query(message), reference_query(message), "message {message:?}");
    }
}
