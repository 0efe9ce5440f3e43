use adb_sync_tool::cli::shell::quote;

#[test]
fn words_of_a_command_are_quoted_where_they_must_be() {
    for word in ["/sdcard/Music/a_b-c.mp3", "AZaz09", ".", "-"] {
        assert_eq!(quote(word), word);
    }
    assert_eq!(quote(""), "''");
    assert_eq!(quote("a b"), "'a b'");
    assert_eq!(quote("Müsik"), "'Müsik'");
    assert_eq!(quote("$HOME; `x` \"y\" \\ *\n"), "'$HOME; `x` \"y\" \\ *\n'");
    assert_eq!(quote("it's"), "'it'\\''s'");
    assert_eq!(quote("'"), "''\\'''");
    assert_eq!(quote("''"), "''\\'''\\'''");
}

/// The text that a shell reads from a word.
fn read(word: &str) -> Option<String> {
    let mut text = String::new();
    let mut quoted = false;
    let mut chars = word.chars();
    while let Some(c) = chars.next() {
        if c == '\'' {
            quoted = !quoted;
        } else if !quoted && c == '\\' {
            text.push(chars.next()?);
        } else if quoted || c.is_ascii_alphanumeric() || "/._-".contains(c) {
            text.push(c);
        } else {
            return None;
        }
    }
    if quoted {
        None
    } else {
        Some(text)
    }
}

#[test]
fn a_shell_reads_back_what_was_quoted() {
    let mut texts: Vec<String> = vec![String::new()];
    let mut last = texts.clone();
    for _ in 0..5 {
        let mut next: Vec<String> = Vec::new();
        for text in &last {
            for c in ['a', ' ', '\'', '\\', '$', '\n'] {
                next.push(format!("{}{}", text, c));
            }
        }
        texts.extend(next.iter().cloned());
        last = next;
    }
    for text in texts {
        assert_eq!(read(&quote(&text)), Some(text.clone()), "{:?}", text);
    }
}
