use trie_semantic_search::utils::{SystemUtils, TextUtils, Timer, ValidationUtils};

#[test]
fn test_text_truncate() {
    assert_eq!(TextUtils::truncate("Hello world", 20), "Hello world");
    assert_eq!(TextUtils::truncate("This is a very long text", 10), "This is...");
}

#[test]
fn test_format_bytes() {
    assert_eq!(SystemUtils::format_bytes(512), "512 B");
    assert_eq!(SystemUtils::format_bytes(1024), "1.00 KB");
    assert_eq!(SystemUtils::format_bytes(1048576), "1.00 MB");
}

#[test]
fn test_validation() {
    assert!(ValidationUtils::is_valid_search_query("test query", 2, 100));
    assert!(!ValidationUtils::is_valid_search_query("", 2, 100));
    assert!(!ValidationUtils::is_valid_search_query("a", 2, 100));
}

#[test]
fn test_truncate_shorter_than_ellipsis() {
    assert_eq!(TextUtils::truncate("abcdef", 2), "...");
    assert_eq!(TextUtils::truncate("", 0), "");
}

#[test]
fn test_truncate_counts_bytes() {
    // Thirteen bytes of text cut at byte six, a character boundary.
    assert_eq!(TextUtils::truncate("h\u{e9}llo w\u{f6}rld", 9), "h\u{e9}llo...");
}

#[test]
fn test_format_bytes_units() {
    assert_eq!(SystemUtils::format_bytes(0), "0 B");
    assert_eq!(SystemUtils::format_bytes(1023), "1023 B");
    assert_eq!(SystemUtils::format_bytes(1536), "1.50 KB");
    assert_eq!(SystemUtils::format_bytes(1535), "1.50 KB");
    assert_eq!(SystemUtils::format_bytes(1525), "1.49 KB");
    assert_eq!(SystemUtils::format_bytes(1073741824), "1.00 GB");
    assert_eq!(SystemUtils::format_bytes(1099511627776), "1.00 TB");
}

#[test]
fn test_format_duration() {
    assert_eq!(SystemUtils::format_duration(5), "5s");
    assert_eq!(SystemUtils::format_duration(65), "1m 5s");
    assert_eq!(SystemUtils::format_duration(3600), "1h 0m 0s");
    assert_eq!(SystemUtils::format_duration(3725), "1h 2m 5s");
}

#[test]
fn test_word_count() {
    assert_eq!(TextUtils::word_count(""), 0);
    assert_eq!(TextUtils::word_count("   "), 0);
    assert_eq!(TextUtils::word_count("one"), 1);
    assert_eq!(TextUtils::word_count("  equal   protection  clause "), 3);
}

#[test]
fn test_extract_preview() {
    assert_eq!(TextUtils::extract_preview("a b c d", 2), "a b...");
    assert_eq!(TextUtils::extract_preview("a b", 5), "a b");
    assert_eq!(TextUtils::extract_preview("a b", 2), "a b...");
    assert_eq!(TextUtils::extract_preview("a b", 0), "...");
}

#[test]
fn test_sanitize_keeps_whitespace_drops_controls() {
    assert_eq!(TextUtils::sanitize("ab\u{0}cd"), "abcd");
    assert_eq!(TextUtils::sanitize("line1\nline2\tend"), "line1\nline2\tend");
}

#[test]
fn test_text_hash_known_values() {
    assert_eq!(TextUtils::text_hash(""), "cbf29ce484222325");
    assert_eq!(TextUtils::text_hash("a"), "af63dc4c8601ec8c");
    assert_ne!(TextUtils::text_hash("alpha"), TextUtils::text_hash("beta"));
}

#[test]
fn test_is_valid_case_id() {
    assert!(ValidationUtils::is_valid_case_id("67e55044-10b1-426f-9247-bb680e5fe0c8"));
    assert!(!ValidationUtils::is_valid_case_id("not-a-uuid"));
}

#[test]
fn test_is_valid_citation() {
    assert!(ValidationUtils::is_valid_citation("347 U.S. 483 (1954)"));
    assert!(!ValidationUtils::is_valid_citation("Brown v. Board"));
}

#[test]
fn test_sanitize_filename() {
    assert_eq!(ValidationUtils::sanitize_filename("case_1.txt"), "case_1.txt");
    assert_eq!(ValidationUtils::sanitize_filename("a b/c:d"), "a_b_c_d");
}

#[test]
fn test_timer_monotone() {
    let timer = Timer::new("unit");
    let first = timer.elapsed_ms();
    let last = timer.stop();
    assert!(last >= first);
}

#[test]
fn test_memory_and_uptime_unmeasured() {
    assert!(SystemUtils::memory_usage().is_none());
    assert!(SystemUtils::uptime().is_none());
}
