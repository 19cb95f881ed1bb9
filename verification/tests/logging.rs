use service_bootstrap::cuts::{blank, cuts_cleanly, on_boundary, piece_cuts_cleanly, utf8_width};
use service_bootstrap::logging::{directives_or_default, filter_directives, is_usable};

#[test]
fn unset_filter_defaults_to_warnings() {
    assert_eq!(filter_directives(None), "warn");
}

#[test]
fn valid_filter_is_kept() {
    assert_eq!(filter_directives(Some("info".to_string())), "info");
    assert_eq!(
        filter_directives(Some("my_crate=debug,tower_http=trace".to_string())),
        "my_crate=debug,tower_http=trace"
    );
}

#[test]
fn empty_filter_is_kept() {
    assert_eq!(filter_directives(Some(String::new())), "");
}

#[test]
fn invalid_filter_defaults_to_warnings() {
    assert_eq!(filter_directives(Some("my_crate=loud".to_string())), "warn");
    assert_eq!(filter_directives(Some("info,my_crate=loud".to_string())), "warn");
}

#[test]
fn filter_outside_ascii_is_kept_where_the_parser_takes_it() {
    assert_eq!(filter_directives(Some("caf\u{e9}=info".to_string())), "caf\u{e9}=info");
    assert_eq!(filter_directives(Some("info,\u{a0}x".to_string())), "info,\u{a0}x");
    assert_eq!(
        filter_directives(Some("app[\u{e4} b]=info".to_string())),
        "app[\u{e4} b]=info"
    );
    assert_eq!(filter_directives(Some("\u{e9} ,info".to_string())), "\u{e9} ,info");
}

#[test]
fn filter_outside_ascii_that_the_parser_refuses_defaults_to_warnings() {
    assert_eq!(filter_directives(Some("caf\u{e9}=loud".to_string())), "warn");
    assert_eq!(filter_directives(Some("caf\u{e9}=info ".to_string())), "warn");
}

#[test]
fn filter_with_a_cut_inside_a_character_defaults_to_warnings() {
    assert_eq!(filter_directives(Some(" \u{e9}=info".to_string())), "warn");
    assert_eq!(filter_directives(Some("info, \u{e9}[x]".to_string())), "warn");
    assert_eq!(filter_directives(Some("\u{a0}[span]=info".to_string())), "warn");
    assert_eq!(filter_directives(Some(" a\u{e9}=info".to_string())), "warn");
}

#[test]
fn ascii_filter_with_white_space_goes_to_the_parser() {
    assert_eq!(filter_directives(Some("info ".to_string())), "info ");
    assert_eq!(filter_directives(Some(" info".to_string())), " info");
}

#[test]
fn blank_is_unicode_white_space() {
    let mut c = '\0';
    loop {
        assert_eq!(blank(c), c.is_whitespace(), "on {:?}", c);
        assert_eq!(utf8_width(c), c.len_utf8() as u128, "on {:?}", c);
        match char::from_u32(c as u32 + 1) {
            Some(next) => c = next,
            None => {
                if c as u32 >= 0x10ffff {
                    break;
                }
                c = '\u{e000}';
            }
        }
    }
}

#[test]
fn on_boundary_agrees_with_the_standard_library() {
    for text in ["", "abc", "\u{e9}", "a\u{e9}b", "\u{a0}\u{3000}x", "\u{1f600}!", " \u{e9}=info"] {
        for p in 0..=(text.len() + 2) {
            let expected = p <= text.len() && text.is_char_boundary(p);
            assert_eq!(on_boundary(text, p as u128), expected, "on {:?} at {}", text, p);
        }
    }
}

#[test]
fn cuts_are_judged_piece_by_piece() {
    assert!(cuts_cleanly(""));
    assert!(cuts_cleanly("info"));
    assert!(cuts_cleanly(" a=info , b[c{d=1}]=warn,, "));
    assert!(cuts_cleanly("\u{e9}=info,x[\u{e4}]=warn"));
    assert!(cuts_cleanly("\u{a0}ab=info"));
    assert!(cuts_cleanly(" \u{e9}"));
    assert!(cuts_cleanly("\u{3000}abc=info"));
    assert!(!cuts_cleanly("\u{3000}ab=info"));
    assert!(!cuts_cleanly(" \u{e9}=info"));
    assert!(!cuts_cleanly("info, \u{e9}=info"));
    assert!(!cuts_cleanly(" [\u{e9}]"));
    assert!(piece_cuts_cleanly(" [\u{e9}"));
    assert!(!piece_cuts_cleanly(" x[a{\u{e9}}]"));
    assert!(!piece_cuts_cleanly(" a\u{e9}=info"));
    assert!(piece_cuts_cleanly(" a=\u{e9}"));
}

#[test]
fn is_usable_asks_the_parser() {
    assert!(is_usable("warn"));
    assert!(is_usable("error"));
    assert!(is_usable("my_crate::module=trace"));
    assert!(!is_usable("my_crate=loud"));
    assert!(is_usable("caf\u{e9}"));
    assert!(is_usable(" caf\u{e9}"));
    assert!(!is_usable(" caf\u{e9}=info"));
}

#[test]
fn directives_or_default_follows_the_verdict() {
    assert_eq!(directives_or_default(Some("debug".to_string()), true), "debug");
    assert_eq!(directives_or_default(Some("debug".to_string()), false), "warn");
    assert_eq!(directives_or_default(None, true), "warn");
    assert_eq!(directives_or_default(None, false), "warn");
}

fn short_texts(alphabet: &[char], longest: usize) -> Vec<String> {
    let mut all = vec![String::new()];
    let mut last = vec![String::new()];
    for _ in 0..longest {
        let mut next = Vec::new();
        for text in &last {
            for c in alphabet {
                let mut longer = text.clone();
                longer.push(*c);
                next.push(longer);
            }
        }
        all.extend(next.iter().cloned());
        last = next;
    }
    all
}

#[test]
fn parser_returns_wherever_the_cuts_are_sound() {
    let alphabet = [' ', '\u{a0}', '\u{e9}', 'a', '=', '[', ']', '{', '}', ','];
    let mut kept = 0;
    for text in short_texts(&alphabet, 5) {
        if cuts_cleanly(&text) {
            let accepted = tracing_subscriber::EnvFilter::try_new(&text).is_ok();
            assert_eq!(is_usable(&text), accepted, "on {:?}", text);
            let chosen = filter_directives(Some(text.clone()));
            assert_eq!(chosen, if accepted { text.clone() } else { "warn".to_string() });
            kept += 1;
        } else {
            assert_eq!(filter_directives(Some(text.clone())), "warn", "on {:?}", text);
        }
    }
    assert!(kept > 0);
}
