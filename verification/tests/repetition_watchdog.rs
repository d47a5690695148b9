use unleashed_agent::repetition_watchdog::{
    RepetitionWatchdog, RepetitionWatchdogConfig, ROLLING_WINDOW_CHARS,
};

fn config() -> RepetitionWatchdogConfig {
    RepetitionWatchdogConfig {
        min_block_chars: 4,
        max_block_chars: 32,
        min_repeats: 3,
        min_text_chars_before_trip: 12,
    }
}

#[test]
fn trips_on_third_total_occurrence_and_keeps_one() {
    let mut watchdog = RepetitionWatchdog::new(config());
    let text = "normal-abcdabcdabcd";
    let trip = watchdog.push(text).expect("expected a repetition trip");

    assert_eq!(trip.block_char_count, 4);
    assert_eq!(trip.repeat_count, 3);
    assert_eq!(&text[..trip.cutoff_byte_index], "normal-abcd");
}

#[test]
fn detects_repetition_across_chunk_boundaries() {
    let mut watchdog = RepetitionWatchdog::new(config());

    assert_eq!(watchdog.push("normal-ab"), None);
    assert_eq!(watchdog.push("cdabc"), None);
    let trip = watchdog.push("dabcd").expect("expected a repetition trip");

    assert_eq!(trip.block_char_count, 4);
    assert_eq!(trip.repeat_count, 3);
}

#[test]
fn returns_utf8_byte_boundary() {
    let mut watchdog = RepetitionWatchdog::new(RepetitionWatchdogConfig {
        min_block_chars: 2,
        max_block_chars: 8,
        min_repeats: 3,
        min_text_chars_before_trip: 6,
    });
    let text = "前置🙂界🙂界🙂界";
    let trip = watchdog.push(text).expect("expected a repetition trip");

    assert!(text.is_char_boundary(trip.cutoff_byte_index));
    assert_eq!(&text[..trip.cutoff_byte_index], "前置🙂界");
}

#[test]
fn ignores_whitespace_only_repetition() {
    let mut watchdog = RepetitionWatchdog::new(config());
    assert_eq!(watchdog.push("            "), None);
}

#[test]
fn normal_text_does_not_trip() {
    let mut watchdog = RepetitionWatchdog::new(config());
    assert_eq!(
        watchdog.push("This is a normal answer with no periodic suffix."),
        None
    );
}

#[test]
fn ordinary_repeated_code_structure_does_not_trip() {
    let mut watchdog = RepetitionWatchdog::new(RepetitionWatchdogConfig {
        min_block_chars: 64,
        max_block_chars: 1_024,
        min_repeats: 3,
        min_text_chars_before_trip: 256,
    });
    let code = (0..20)
        .map(|index| {
            format!(
                ".button-{index} {{ color: red; }}\n\
                 .button-{index}:hover {{ color: blue; }}\n\
                 {{\"tool\":\"read_file\",\"id\":{index},\"status\":\"pending\"}}\n"
            )
        })
        .collect::<String>();

    assert_eq!(watchdog.push(&code), None);
}

#[test]
fn production_defaults_require_more_than_three_minimum_blocks() {
    let mut watchdog = RepetitionWatchdog::new(RepetitionWatchdogConfig {
        min_block_chars: 64,
        max_block_chars: 1_024,
        min_repeats: 3,
        min_text_chars_before_trip: 256,
    });
    let block = "A".repeat(64);

    assert_eq!(watchdog.push(&block.repeat(3)), None);
    let trip = watchdog
        .push(&block)
        .expect("fourth minimum-sized repeat should trip once the text floor is met");
    assert_eq!(trip.block_char_count, 64);
    assert!(trip.repeat_count >= 3);
}

#[test]
fn block_larger_than_configured_maximum_does_not_trip() {
    let block = "abcdefghijklmnopqrstuvwxyz";
    let mut watchdog = RepetitionWatchdog::new(RepetitionWatchdogConfig {
        min_block_chars: 4,
        max_block_chars: 8,
        min_repeats: 3,
        min_text_chars_before_trip: 12,
    });

    assert_eq!(watchdog.push(&block.repeat(3)), None);
}

#[test]
fn rolling_storage_is_bounded() {
    let mut watchdog = RepetitionWatchdog::new(RepetitionWatchdogConfig {
        min_block_chars: 64,
        max_block_chars: 1_024,
        min_repeats: 3,
        min_text_chars_before_trip: usize::MAX,
    });

    watchdog.push(&"bounded-window-".repeat(10_000));

    assert_eq!(watchdog.chars.len(), ROLLING_WINDOW_CHARS);
}

#[test]
fn pieces_do_not_change_the_report() {
    let text = "normal-abcdabcdabcd";
    let whole = RepetitionWatchdog::new(config()).push(text);
    let mut watchdog = RepetitionWatchdog::new(config());
    let mut last = None;
    for c in text.chars() {
        last = watchdog.push(&c.to_string());
    }
    assert_eq!(last, whole);
}

#[test]
fn a_tripped_watchdog_is_silent_until_it_is_reset() {
    let mut watchdog = RepetitionWatchdog::new(config());
    assert!(watchdog.push("normal-abcdabcdabcd").is_some());
    assert_eq!(watchdog.push("abcdabcdabcd"), None);
    watchdog.reset();
    assert!(watchdog.push("normal-abcdabcdabcd").is_some());
}

#[test]
fn a_tripped_watchdog_ignores_what_it_is_given() {
    let mut watchdog = RepetitionWatchdog::new(config());
    assert!(watchdog.push("normal-abcdabcdabcd").is_some());
    assert_eq!(watchdog.push("abcdabcdabcd"), None);
    watchdog.reset();
    assert!(watchdog.push("abcdabcdabcd").is_some());
}

#[test]
fn the_shortest_block_and_all_its_copies_are_reported() {
    let mut watchdog = RepetitionWatchdog::new(config());
    let trip = watchdog.push(&format!("xy{}", "abcd".repeat(8))).unwrap();
    assert_eq!((trip.block_char_count, trip.repeat_count), (4, 8));
    assert_eq!((trip.cutoff_char_index, trip.cutoff_byte_index), (6, 6));
    assert_eq!(trip.accepted_text_char_count, 34);

    let mut watchdog = RepetitionWatchdog::new(config());
    let trip = watchdog.push(&"é".repeat(12)).unwrap();
    assert_eq!((trip.block_char_count, trip.repeat_count), (4, 3));
    assert_eq!((trip.cutoff_char_index, trip.cutoff_byte_index), (4, 8));

    let mut watchdog = RepetitionWatchdog::new(config());
    assert_eq!(watchdog.push("abcdabcdabcX"), None);
}

#[test]
fn copies_are_counted_within_the_window() {
    let mut watchdog = RepetitionWatchdog::new(RepetitionWatchdogConfig {
        min_block_chars: 5,
        max_block_chars: 5,
        min_repeats: 2,
        min_text_chars_before_trip: 20_000,
    });
    assert_eq!(watchdog.push(&"abcde".repeat(3_999)), None);
    let trip = watchdog.push("abcde").unwrap();
    assert_eq!(trip.repeat_count, ROLLING_WINDOW_CHARS / 5);
    assert_eq!(trip.cutoff_char_index, 20_000 - 5 * trip.repeat_count + 5);
    assert_eq!(trip.accepted_text_char_count, 20_000);
}
