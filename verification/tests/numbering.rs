use numthm::{find_and_replace_envs, Env, LabelInfo, Registry, Warning};

fn env(key: &str, name: &str, emph: &str) -> Env {
    Env {
        key: key.to_string(),
        name: name.to_string(),
        emph: emph.to_string(),
    }
}

fn theorem() -> Env {
    env("thm", "Theorem", "**")
}

#[test]
fn markers_are_numbered_in_order() {
    let mut refs = Registry::new();
    let r = find_and_replace_envs(
        "{{thm}} a {{thm}}{l1} b {{thm}}[T]",
        "",
        "c.md",
        &theorem(),
        0,
        &mut refs,
    );
    assert_eq!(
        r.content,
        "**Theorem 1.** a <a name=\"l1\"></a>\n**Theorem 2.** b **Theorem 3 (T).**"
    );
    assert_eq!(r.counter, 3);
    assert!(r.warnings.is_empty());
    assert_eq!(refs.len(), 1);
    assert_eq!(refs.get("l1").unwrap().num_name, "Theorem 2");
}

#[test]
fn counting_goes_on_from_the_start_given() {
    let mut refs = Registry::new();
    let first = find_and_replace_envs("{{thm}} {{thm}}", "", "a.md", &theorem(), 0, &mut refs);
    assert_eq!(first.counter, 2);
    let second =
        find_and_replace_envs("{{thm}}{x}", "", "b.md", &theorem(), first.counter, &mut refs);
    assert_eq!(second.content, "<a name=\"x\"></a>\n**Theorem 3.**");
    assert_eq!(second.counter, 3);
    assert_eq!(
        *refs.get("x").unwrap(),
        LabelInfo {
            num_name: "Theorem 3".to_string(),
            path: "b.md".to_string(),
            title: None,
        }
    );
}

#[test]
fn text_without_marker_is_unchanged() {
    let mut refs = Registry::new();
    let r = find_and_replace_envs("no marker {thm} here", "1.", "a.md", &theorem(), 7, &mut refs);
    assert_eq!(r.content, "no marker {thm} here");
    assert_eq!(r.counter, 7);
    assert!(refs.is_empty());
}

#[test]
fn empty_text_is_unchanged() {
    let mut refs = Registry::new();
    let r = find_and_replace_envs("", "", "a.md", &theorem(), 0, &mut refs);
    assert_eq!(r.content, "");
    assert_eq!(r.counter, 0);
}

#[test]
fn empty_prefix_gives_the_bare_counter() {
    let mut refs = Registry::new();
    let r = find_and_replace_envs("{{thm}}", "", "a.md", &theorem(), 0, &mut refs);
    assert_eq!(r.content, "**Theorem 1.**");
}

#[test]
fn number_is_written_in_decimal() {
    let mut refs = Registry::new();
    let r = find_and_replace_envs("{{thm}}", "", "a.md", &theorem(), 9, &mut refs);
    assert_eq!(r.content, "**Theorem 10.**");
    let r = find_and_replace_envs("{{thm}}", "3.", "a.md", &theorem(), 1099, &mut refs);
    assert_eq!(r.content, "**Theorem 3.1100.**");
    let r = find_and_replace_envs("{{thm}}", "", "a.md", &theorem(), u128::MAX - 1, &mut refs);
    assert_eq!(
        r.content,
        "**Theorem 340282366920938463463374607431768211455.**"
    );
    assert_eq!(r.counter, u128::MAX);
}

#[test]
fn lighter_emphasis_is_used_as_given() {
    let mut refs = Registry::new();
    let r = find_and_replace_envs(
        "{{rem}}[Note]",
        "",
        "a.md",
        &env("rem", "Remark", "*"),
        0,
        &mut refs,
    );
    assert_eq!(r.content, "*Remark 1 (Note).*");
}

#[test]
fn unclosed_label_stays_as_text() {
    let mut refs = Registry::new();
    let r = find_and_replace_envs("{{thm}}{label", "", "a.md", &theorem(), 0, &mut refs);
    assert_eq!(r.content, "**Theorem 1.**{label");
    assert!(refs.is_empty());
}

#[test]
fn unclosed_title_stays_as_text() {
    let mut refs = Registry::new();
    let r = find_and_replace_envs("{{thm}}{a}[title", "", "a.md", &theorem(), 0, &mut refs);
    assert_eq!(r.content, "<a name=\"a\"></a>\n**Theorem 1.**[title");
    assert_eq!(refs.get("a").unwrap().title, None);
}

#[test]
fn unclosed_key_is_no_marker() {
    let mut refs = Registry::new();
    let r = find_and_replace_envs("{{thm} and {{thm", "", "a.md", &theorem(), 0, &mut refs);
    assert_eq!(r.content, "{{thm} and {{thm");
    assert_eq!(r.counter, 0);
}

#[test]
fn title_before_label_takes_no_label() {
    let mut refs = Registry::new();
    let r = find_and_replace_envs("{{thm}}[T]{l}", "", "a.md", &theorem(), 0, &mut refs);
    assert_eq!(r.content, "**Theorem 1 (T).**{l}");
    assert!(refs.is_empty());
}

#[test]
fn label_ends_at_the_first_closing_brace() {
    let mut refs = Registry::new();
    let r = find_and_replace_envs("{{thm}}{a}b}[x]y]", "", "a.md", &theorem(), 0, &mut refs);
    assert_eq!(r.content, "<a name=\"a\"></a>\n**Theorem 1.**b}[x]y]");
    assert!(refs.contains_key("a"));
}

#[test]
fn empty_label_and_title_are_taken() {
    let mut refs = Registry::new();
    let r = find_and_replace_envs("{{thm}}{}[]", "", "a.md", &theorem(), 0, &mut refs);
    assert_eq!(r.content, "<a name=\"\"></a>\n**Theorem 1 ().**");
    assert_eq!(refs.get("").unwrap().title, Some(String::new()));
}

#[test]
fn label_may_hold_any_character_but_the_brace() {
    let mut refs = Registry::new();
    let r = find_and_replace_envs(
        "{{thm}}{a\n[b] {c}[t\u{e9} {x}]",
        "",
        "a.md",
        &theorem(),
        0,
        &mut refs,
    );
    assert_eq!(
        r.content,
        "<a name=\"a\n[b] {c\"></a>\n**Theorem 1 (t\u{e9} {x}).**"
    );
    assert_eq!(
        refs.get("a\n[b] {c").unwrap().title,
        Some("t\u{e9} {x}".to_string())
    );
}

#[test]
fn key_is_matched_letter_by_letter() {
    let mut refs = Registry::new();
    let r = find_and_replace_envs(
        "{{abc}} {{a.c}} {{a.c",
        "",
        "a.md",
        &env("a.c", "Claim", "_"),
        0,
        &mut refs,
    );
    assert_eq!(r.content, "{{abc}} _Claim 1._ {{a.c");
}

#[test]
fn other_kinds_are_left_alone() {
    let mut refs = Registry::new();
    let r = find_and_replace_envs(
        "{{lem}}{x} {{thm}} {{lemma}}",
        "",
        "a.md",
        &env("lem", "Lemma", "**"),
        0,
        &mut refs,
    );
    assert_eq!(r.content, "<a name=\"x\"></a>\n**Lemma 1.** {{thm}} {{lemma}}");
}

#[test]
fn brace_behind_a_marker_opens_its_label() {
    let mut refs = Registry::new();
    let r = find_and_replace_envs("{{thm}}{{thm}}", "", "a.md", &theorem(), 0, &mut refs);
    assert_eq!(r.content, "<a name=\"{thm\"></a>\n**Theorem 1.**}");
    assert_eq!(r.counter, 1);
    assert!(refs.contains_key("{thm"));
}

#[test]
fn markers_next_to_each_other() {
    let mut refs = Registry::new();
    let r = find_and_replace_envs("{{thm}}[a]{{thm}}", "", "a.md", &theorem(), 0, &mut refs);
    assert_eq!(r.content, "**Theorem 1 (a).****Theorem 2.**");
}

#[test]
fn repeated_label_keeps_the_first_entry_and_warns() {
    let mut refs = Registry::new();
    let r = find_and_replace_envs(
        "{{thm}}{x}[One] {{thm}}{x}[Two] {{thm}}{y}",
        "2.",
        "a.md",
        &theorem(),
        0,
        &mut refs,
    );
    assert_eq!(
        r.content,
        "<a name=\"x\"></a>\n**Theorem 2.1 (One).** <a name=\"x\"></a>\n**Theorem 2.2 (Two).** <a name=\"y\"></a>\n**Theorem 2.3.**"
    );
    assert_eq!(refs.len(), 2);
    assert_eq!(
        *refs.get("x").unwrap(),
        LabelInfo {
            num_name: "Theorem 2.1".to_string(),
            path: "a.md".to_string(),
            title: Some("One".to_string()),
        }
    );
    assert_eq!(
        r.warnings,
        vec![Warning::DuplicateLabel {
            numbered_name: "Theorem 2.2".to_string(),
            label: "x".to_string(),
        }]
    );
    assert_eq!(
        r.warnings[0].message(),
        "Theorem 2.2: Label `x' already used"
    );
}

#[test]
fn repeated_label_across_kinds_warns() {
    let mut refs = Registry::new();
    let first = find_and_replace_envs(
        "{{prop}}{l} {{thm}}{l}",
        "",
        "a.md",
        &env("prop", "Proposition", "**"),
        0,
        &mut refs,
    );
    assert!(first.warnings.is_empty());
    let second = find_and_replace_envs(&first.content, "", "a.md", &theorem(), 0, &mut refs);
    assert_eq!(
        second.content,
        "<a name=\"l\"></a>\n**Proposition 1.** <a name=\"l\"></a>\n**Theorem 1.**"
    );
    assert_eq!(refs.len(), 1);
    assert_eq!(refs.get("l").unwrap().num_name, "Proposition 1");
    assert_eq!(
        second.warnings,
        vec![Warning::DuplicateLabel {
            numbered_name: "Theorem 1".to_string(),
            label: "l".to_string(),
        }]
    );
}

#[test]
fn registry_starts_empty_and_finds_what_was_registered() {
    let mut refs = Registry::new();
    assert!(refs.is_empty());
    assert_eq!(refs.len(), 0);
    assert!(!refs.contains_key("a"));
    assert!(refs.get("a").is_none());
    let fresh = refs.register(
        "a".to_string(),
        LabelInfo {
            num_name: "Lemma 1".to_string(),
            path: "p.md".to_string(),
            title: None,
        },
    );
    assert!(fresh);
    let again = refs.register(
        "a".to_string(),
        LabelInfo {
            num_name: "Lemma 2".to_string(),
            path: "q.md".to_string(),
            title: Some("T".to_string()),
        },
    );
    assert!(!again);
    assert_eq!(refs.len(), 1);
    assert_eq!(refs.get("a").unwrap().num_name, "Lemma 1");
    assert_eq!(refs.get("a").unwrap().path, "p.md");
}
