use assistant_core::terminal::{output_byte_limit, Terminal, TerminalExit, DEFAULT_OUTPUT_BYTE_LIMIT};

fn terminal(byte_limit: usize) -> Terminal {
    Terminal {
        byte_limit,
        ..Default::default()
    }
}

#[test]
fn output_under_the_limit_is_kept_whole() {
    let mut terminal = terminal(64);

    terminal.push("one\n");
    terminal.push("two\n");

    assert_eq!(terminal.output, "one\ntwo\n");
    assert!(!terminal.truncated);
}

#[test]
fn output_over_the_limit_drops_whole_lines_from_the_front() {
    let mut terminal = terminal(8);

    terminal.push("one\ntwo\nthree\n");

    assert_eq!(terminal.output, "three\n");
    assert!(terminal.truncated);
}

#[test]
fn a_single_long_line_is_cut_on_a_char_boundary() {
    let mut terminal = terminal(4);

    terminal.push("éééé");

    assert!(terminal.truncated);
    assert!(terminal.output.len() <= 4);
    // Dropping mid-codepoint would have panicked or produced replacement characters.
    assert!(terminal.output.chars().all(|character| character == 'é'));
}

// ---------------------------------------------------------------------------
// Further cases
// ---------------------------------------------------------------------------

#[test]
fn a_long_last_line_keeps_its_tail() {
    let mut terminal = terminal(5);

    terminal.push("abc\n0123456789");

    assert_eq!(terminal.output, "56789");
    assert!(terminal.truncated);
}

#[test]
fn a_trailing_newline_line_is_cut_rather_than_dropped() {
    let mut terminal = terminal(3);

    terminal.push("abcdef\n");

    assert_eq!(terminal.output, "ef\n");
}

#[test]
fn a_zero_limit_keeps_nothing() {
    let mut terminal = terminal(0);

    terminal.push("x");

    assert_eq!(terminal.output, "");
    assert!(terminal.truncated);
}

#[test]
fn truncation_stays_recorded() {
    let mut terminal = terminal(4);

    terminal.push("12345");
    terminal.output.clear();
    terminal.push("1");

    assert!(terminal.truncated);
    assert_eq!(terminal.output, "1");
}

#[test]
fn finishing_records_the_exit() {
    let mut terminal = Terminal::new(16);
    terminal.push("hello");
    terminal.finish(TerminalExit {
        exit_code: Some(3),
        signal: None,
    });

    assert_eq!(terminal.output, "hello");
    assert_eq!(terminal.exit.as_ref().and_then(|exit| exit.exit_code), Some(3));
}

#[test]
fn the_byte_limit_falls_back_to_the_default() {
    assert_eq!(output_byte_limit(None), DEFAULT_OUTPUT_BYTE_LIMIT);
    assert_eq!(output_byte_limit(Some(10)), 10);
    assert_eq!(DEFAULT_OUTPUT_BYTE_LIMIT, 64 * 1024);
}
