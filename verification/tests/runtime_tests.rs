use jutsu::evaluator::builtins::{
    clean_text, json_extract, str_replace, strip_json_fences, text_is_truthy,
};
use jutsu::evaluator::env::Environment;
use jutsu::evaluator::net::{parse_u16, port_from_text, reply_response};
use jutsu::evaluator::queue::MessageQueue;
use jutsu::evaluator::rag::{count_matches, rag_chunks, search_tokens, sentences};
use jutsu::evaluator::render::{render_array, render_dictionary, sort_texts, text_less, Piece};

fn chars(s: &str) -> Vec<char> {
    s.chars().collect()
}

#[test]
fn read_after_define() {
    let mut env: Environment<i32> = Environment::new();
    env.define("dog".to_string(), 150);
    assert_eq!(env.get_variable("dog"), Some(&150));
    assert_eq!(env.get_variable("cat"), None);
}

#[test]
fn inner_scope_shadows_and_block_end_restores() {
    let mut env: Environment<i32> = Environment::new();
    env.define("x".to_string(), 1);
    env.push_scope();
    env.define("x".to_string(), 2);
    assert_eq!(env.get_variable("x"), Some(&2));
    env.pop_scope();
    assert_eq!(env.get_variable("x"), Some(&1));
    assert_eq!(env.depth(), 1);
}

#[test]
fn assignment_updates_the_binding_scope() {
    let mut env: Environment<i32> = Environment::new();
    env.define("x".to_string(), 1);
    env.push_scope();
    assert!(env.assign("x".to_string(), 5));
    env.pop_scope();
    assert_eq!(env.get_variable("x"), Some(&5));
    assert!(!env.assign("missing".to_string(), 3));
    assert_eq!(env.get_variable("missing"), None);
}

#[test]
fn global_variables_are_seen_from_inner_scopes() {
    let mut env: Environment<&str> = Environment::new();
    env.push_scope();
    env.push_scope();
    env.set_global_variable("g".to_string(), "global");
    assert_eq!(env.get_variable("g"), Some(&"global"));
    assert_eq!(env.binding_scope("g"), Some(0));
}

#[test]
fn recv_on_empty_queue_gives_nothing() {
    let mut q: MessageQueue<String> = MessageQueue::new();
    assert_eq!(q.pop(), None);
    assert_eq!(q.len(), 0);
}

#[test]
fn queue_is_first_in_first_out() {
    let mut q: MessageQueue<&str> = MessageQueue::new();
    q.push("screen");
    q.push("password");
    q.push("cache");
    assert_eq!(q.len(), 3);
    assert_eq!(q.pop(), Some("screen"));
    assert_eq!(q.pop(), Some("password"));
    assert_eq!(q.pop(), Some("cache"));
    assert_eq!(q.pop(), None);
}

#[test]
fn truthiness_of_text() {
    assert!(text_is_truthy("yes"));
    assert!(!text_is_truthy(""));
    assert!(!text_is_truthy("false"));
    assert!(!text_is_truthy("EMPTY_PING"));
    assert!(text_is_truthy("False"));
}

#[test]
fn json_extract_reads_a_key() {
    assert_eq!(json_extract("{\"name\": \"Ana\", \"age\": 30}", "name"), Some("Ana".to_string()));
    assert_eq!(json_extract("{\"name\": \"Ana\", \"age\": 30}", "age"), Some("30".to_string()));
    assert_eq!(json_extract("{\"name\": \"Ana\"}", "city"), None);
}

#[test]
fn clean_removes_code_fences() {
    assert_eq!(clean_text("  ```json\n{\"a\": 1}\n```  "), "{\"a\": 1}");
    assert_eq!(clean_text(" plain "), "plain");
}

#[test]
fn strip_fences_before_json_parsing() {
    assert_eq!(strip_json_fences(" ```json\n[1, 2]\n``` "), "[1, 2]");
    assert_eq!(strip_json_fences("{}"), "{}");
}

#[test]
fn str_replace_replaces_every_occurrence() {
    assert_eq!(str_replace("a-b-c", "-", "+"), "a+b+c");
    assert_eq!(str_replace("abc", "", "."), ".a.b.c.");
    assert_eq!(str_replace("abc", "x", "y"), "abc");
}

#[test]
fn documents_split_into_sentences() {
    let s = sentences("Hello world. How are you?\nFine!  tail ");
    let s: Vec<String> = s.iter().map(|v| v.iter().collect()).collect();
    assert_eq!(s, vec!["Hello world.", "How are you?", "Fine!", "tail"]);
}

#[test]
fn short_documents_make_one_chunk() {
    assert_eq!(rag_chunks("One. Two."), vec!["One. Two."]);
    assert_eq!(rag_chunks("   "), Vec::<String>::new());
}

#[test]
fn long_documents_are_cut_at_sentence_ends() {
    let a = "a".repeat(300);
    let b = "b".repeat(150);
    let doc = format!("{}. {}.", a, b);
    let chunks = rag_chunks(&doc);
    assert_eq!(chunks, vec![format!("{}.", a), format!("{}.", b)]);
}

#[test]
fn chunk_budget_counts_bytes() {
    // 150 two-byte characters: 300 bytes, with a 150-byte sentence over 400.
    let a = "é".repeat(150);
    let b = "b".repeat(150);
    let chunks = rag_chunks(&format!("{}. {}.", a, b));
    assert_eq!(chunks.len(), 2);
}

#[test]
fn search_tokens_are_lower_case_words() {
    assert_eq!(search_tokens("Hello, World! It's 2024."), vec!["hello", "world", "its", "2024"]);
}

#[test]
fn matches_count_query_words_with_repetition() {
    let q = search_tokens("cache cache browser");
    let c = search_tokens("Clear the cache of the browser");
    assert_eq!(count_matches(&q, &c), 3);
    assert_eq!(count_matches(&search_tokens("gpu"), &c), 0);
}

#[test]
fn arrays_render_with_quoted_texts() {
    let items = vec![
        Piece::Plain("1".to_string()),
        Piece::Plain("2".to_string()),
        Piece::Text("A".to_string()),
    ];
    assert_eq!(render_array(&items), "[1, 2, \"A\"]");
    assert_eq!(render_array(&Vec::new()), "[]");
}

#[test]
fn dictionaries_render_sorted() {
    let entries = vec![
        ("zeta".to_string(), Piece::Plain("true".to_string())),
        ("id".to_string(), Piece::Plain("101".to_string())),
        ("name".to_string(), Piece::Text("Agent".to_string())),
    ];
    assert_eq!(render_dictionary(&entries), "{\"id\": 101, \"name\": \"Agent\", \"zeta\": true}");
    assert_eq!(render_dictionary(&Vec::new()), "{}");
}

#[test]
fn text_order_is_code_point_order() {
    assert!(text_less(&chars("ab"), &chars("b")));
    assert!(text_less(&chars("a"), &chars("ab")));
    assert!(!text_less(&chars("ab"), &chars("ab")));
    assert!(text_less(&chars("Z"), &chars("a")));
    let sorted = sort_texts(&vec![chars("pear"), chars("apple"), chars("fig"), chars("apple")]);
    let sorted: Vec<String> = sorted.iter().map(|v| v.iter().collect()).collect();
    assert_eq!(sorted, vec!["apple", "apple", "fig", "pear"]);
}

#[test]
fn veil_port_from_text() {
    assert_eq!(port_from_text("9000"), 9000);
    assert_eq!(port_from_text("+80"), 80);
    assert_eq!(port_from_text("65535"), 65535);
    assert_eq!(port_from_text("65536"), 8080);
    assert_eq!(port_from_text("http"), 8080);
    assert_eq!(port_from_text(""), 8080);
    assert_eq!(parse_u16("-1"), None);
    assert_eq!(parse_u16("+"), None);
    assert_eq!(parse_u16("007"), Some(7));
}

#[test]
fn reply_response_frames_the_body() {
    assert_eq!(
        reply_response("hola"),
        "HTTP/1.1 200 OK\r\nContent-Type: text/plain\r\nAccess-Control-Allow-Origin: *\r\nContent-Length: 4\r\nConnection: close\r\n\r\nhola"
    );
    let r = reply_response("ñ");
    assert!(r.contains("Content-Length: 2\r\n"));
    let long = "x".repeat(1234);
    assert!(reply_response(&long).contains("Content-Length: 1234\r\n"));
}

#[test]
fn dictionary_text_does_not_depend_on_entry_order() {
    let a = vec![
        ("b".to_string(), Piece::Plain("2".to_string())),
        ("a".to_string(), Piece::Text("x".to_string())),
    ];
    let b = vec![
        ("a".to_string(), Piece::Text("x".to_string())),
        ("b".to_string(), Piece::Plain("2".to_string())),
    ];
    assert_eq!(render_dictionary(&a), render_dictionary(&b));
    assert_eq!(render_dictionary(&a), "{\"a\": \"x\", \"b\": 2}");
}

#[test]
fn json_value_reads_back_what_was_written() {
    assert_eq!(json_extract("{\"status\": ok}", "status"), Some("ok".to_string()));
    assert_eq!(json_extract("{\"n\": 42}", "n"), Some("42".to_string()));
    assert_eq!(json_extract("{\"e\": }", "e"), Some("".to_string()));
}

#[test]
fn chunks_keep_every_sentence_in_order() {
    let doc = format!("{}. Second one!\n{}? Last", "x".repeat(250), "y".repeat(200));
    let chunks = rag_chunks(&doc);
    let sents: Vec<String> = sentences(&doc).iter().map(|v| v.iter().collect()).collect();
    assert!(chunks.len() >= 2);
    assert_eq!(chunks.join(" "), sents.join(" "));
    for c in &chunks {
        assert!(!c.is_empty());
        assert_eq!(c.trim(), c.as_str());
    }
}

#[test]
fn chunks_keep_the_byte_budget() {
    let doc: String = (0..60).map(|i| format!("Sentence number {} is here. ", i)).collect();
    let chunks = rag_chunks(&doc);
    assert!(chunks.len() > 1);
    for c in &chunks {
        assert!(c.len() <= 400);
    }
    let long = format!("{}. short.", "z".repeat(500));
    let chunks = rag_chunks(&long);
    assert_eq!(chunks, vec![format!("{}.", "z".repeat(500)), "short.".to_string()]);
}
