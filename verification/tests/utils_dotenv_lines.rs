use stdt::utils::dotenv::{parse_line, Line};

fn key_is_valid(s: &str) -> bool {
    let mut chars = s.chars();
    match chars.next() {
        Some(c) if c.is_ascii_alphabetic() || c == '_' => {}
        _ => return false,
    }
    chars.all(|c| c.is_ascii_alphanumeric() || c == '_')
}

fn value_of(raw: &str) -> String {
    let raw = raw.trim();
    if raw.len() >= 2 && raw.starts_with('\'') && raw.ends_with('\'') {
        return raw[1..raw.len() - 1].to_string();
    }
    if raw.len() >= 2 && raw.starts_with('"') && raw.ends_with('"') {
        let s = &raw[1..raw.len() - 1];
        let mut out = String::with_capacity(s.len());
        let mut chars = s.chars();
        while let Some(c) = chars.next() {
            if c == '\\' {
                match chars.next() {
                    Some('n') => out.push('\n'),
                    Some('r') => out.push('\r'),
                    Some('t') => out.push('\t'),
                    Some('0') => out.push('\0'),
                    Some('"') => out.push('"'),
                    Some('\'') => out.push('\''),
                    Some('\\') => out.push('\\'),
                    Some(other) => {
                        out.push('\\');
                        out.push(other);
                    }
                    None => out.push('\\'),
                }
            } else {
                out.push(c);
            }
        }
        return out;
    }
    raw.to_string()
}

fn before_comment(val: &str) -> String {
    let mut in_single = false;
    let mut in_double = false;
    let mut prev_is_space_or_start = true;
    for (i, ch) in val.char_indices() {
        match ch {
            '\'' if !in_double => in_single = !in_single,
            '"' if !in_single => in_double = !in_double,
            '#' if !in_single && !in_double && prev_is_space_or_start => {
                return val[..i].to_string();
            }
            _ => {}
        }
        prev_is_space_or_start = ch.is_whitespace();
    }
    val.to_string()
}

fn expected_line(s: &str) -> Line {
    let s = s.trim();
    if s.is_empty() {
        return Line::Blank;
    }
    if s.starts_with('#') {
        return Line::Comment;
    }
    let s = s
        .strip_prefix("export ")
        .or_else(|| s.strip_prefix("export\t"))
        .unwrap_or(s);

    let mut in_single = false;
    let mut in_double = false;
    let mut iter = s.char_indices().peekable();
    let mut key = String::new();
    let mut val = String::new();
    let mut saw_eq = false;

    while let Some((i, ch)) = iter.next() {
        match ch {
            '=' if !in_single && !in_double => {
                key = s[..i].trim().to_string();
                val = s[i + 1..].to_string();
                saw_eq = true;
                break;
            }
            '\'' if !in_double => in_single = !in_single,
            '"' if !in_single => {
                in_double = !in_double;
            }
            '\\' if in_double => {
                let _ = iter.next();
            }
            _ => {}
        }
    }

    if !saw_eq {
        return Line::Invalid("missing '='".into());
    }
    if !key_is_valid(&key) {
        return Line::Invalid("invalid key".into());
    }
    let val_trimmed = val.trim_start();
    let val = if !(val_trimmed.starts_with('"') || val_trimmed.starts_with('\'')) {
        before_comment(&val)
    } else {
        val
    };
    Line::Pair { key, value: value_of(val.trim()) }
}

fn all_texts(alphabet: &[char], up_to: usize) -> Vec<String> {
    let mut texts: Vec<String> = vec![String::new()];
    let mut level: Vec<String> = vec![String::new()];
    for _ in 0..up_to {
        let mut next = Vec::new();
        for t in &level {
            for c in alphabet {
                let mut longer = t.clone();
                longer.push(*c);
                next.push(longer);
            }
        }
        texts.extend(next.iter().cloned());
        level = next;
    }
    texts
}

#[test]
fn lines_over_a_small_alphabet() {
    let texts = all_texts(&['A', '9', '=', '#', ' ', '\'', '"', '\\', 'n'], 6);
    for t in &texts {
        assert_eq!(parse_line(t), expected_line(t), "{:?}", t);
    }
}

#[test]
fn lines_with_a_value_over_a_small_alphabet() {
    let texts = all_texts(&['a', '#', ' ', '\'', '"', '\\', '=', '0', '\t'], 6);
    for prefix in ["K=", "export K=", "export\tK =", " _k9= ", "K=\"", "K='", "K= '"] {
        for t in &texts {
            let line = format!("{}{}", prefix, t);
            assert_eq!(parse_line(&line), expected_line(&line), "{:?}", line);
        }
    }
}

#[test]
fn lines_with_other_characters() {
    for line in [
        "\u{e9}=1",
        "K=\u{e9}",
        "K=\"\u{e9}\\\u{e9}\"",
        "K='\u{1F600}'",
        "K=a\u{3000}#b",
        "K=a\u{a0}# b",
        "\u{3000}K\u{3000}=\u{3000}v\u{3000}",
        "export  K=v",
        "exportK=v",
        "export",
        "export ",
        "export =v",
        "export\t=v",
        "K=v # c # d",
        "K=\"v\" # c",
        "K=\"a\\\"b\"",
        "K='a'b'",
        "K = \"a b\" ",
        "\"K\"=v",
        "K\"=\"=v",
        "'='",
        "\"\\\"=\"",
        "#K=v",
        " # K=v",
        "K=#",
        "K==",
        "K=\\",
        "K=\"\\",
        "K=\"\\\"",
    ] {
        assert_eq!(parse_line(line), expected_line(line), "{:?}", line);
    }
}
