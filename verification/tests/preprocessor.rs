use numthm::{Chapter, Config, ConfigValue, Env, NumThmPreprocessor, Warning};

fn chapter(content: &str, path: Option<&str>, number: Option<&str>) -> Chapter {
    Chapter {
        content: content.to_string(),
        path: path.map(|p| p.to_string()),
        number: number.map(|n| n.to_string()),
    }
}

fn text(s: &str) -> ConfigValue {
    ConfigValue::String(s.to_string())
}

fn triple(key: &str, name: &str, emph: &str) -> Vec<ConfigValue> {
    vec![text(key), text(name), text(emph)]
}

fn described(envs: &Vec<Env>) -> Vec<(String, String, String)> {
    envs.iter()
        .map(|e| (e.key.clone(), e.name.clone(), e.emph.clone()))
        .collect()
}

fn builtin() -> Vec<(String, String, String)> {
    [
        ("thm", "Theorem", "**"),
        ("lem", "Lemma", "**"),
        ("prop", "Proposition", "**"),
        ("def", "Definition", "**"),
        ("rem", "Remark", "*"),
    ]
    .iter()
    .map(|(k, n, e)| (k.to_string(), n.to_string(), e.to_string()))
    .collect()
}

#[test]
fn default_has_the_builtin_kinds_and_no_prefix() {
    let pre = NumThmPreprocessor::default();
    assert_eq!(described(pre.envs()), builtin());
    assert!(!pre.with_prefix());
    assert_eq!(pre.name(), "numthm");
}

#[test]
fn empty_configuration_gives_the_default() {
    let pre = NumThmPreprocessor::new(&Config {
        prefix: None,
        custom_environments: None,
    });
    assert_eq!(described(pre.envs()), builtin());
    assert!(!pre.with_prefix());
}

#[test]
fn prefix_is_read_from_a_truth_value_only() {
    let on = NumThmPreprocessor::new(&Config {
        prefix: Some(ConfigValue::Boolean(true)),
        custom_environments: None,
    });
    assert!(on.with_prefix());
    let off = NumThmPreprocessor::new(&Config {
        prefix: Some(ConfigValue::Boolean(false)),
        custom_environments: None,
    });
    assert!(!off.with_prefix());
    let other = NumThmPreprocessor::new(&Config {
        prefix: Some(text("true")),
        custom_environments: None,
    });
    assert!(!other.with_prefix());
    let unknown = NumThmPreprocessor::new(&Config {
        prefix: Some(ConfigValue::Other),
        custom_environments: None,
    });
    assert!(!unknown.with_prefix());
}

#[test]
fn custom_kinds_follow_the_builtin_ones() {
    let pre = NumThmPreprocessor::new(&Config {
        prefix: None,
        custom_environments: Some(ConfigValue::Array(vec![
            ConfigValue::Array(triple("conj", "Conjecture", "**")),
            ConfigValue::Array(triple("ex", "Example", "*")),
        ])),
    });
    let mut expected = builtin();
    expected.push(("conj".to_string(), "Conjecture".to_string(), "**".to_string()));
    expected.push(("ex".to_string(), "Example".to_string(), "*".to_string()));
    assert_eq!(described(pre.envs()), expected);
}

#[test]
fn malformed_custom_kinds_are_passed_over() {
    let mut long = triple("cor", "Corollary", "**");
    long.push(ConfigValue::Other);
    let pre = NumThmPreprocessor::new(&Config {
        prefix: None,
        custom_environments: Some(ConfigValue::Array(vec![
            text("bad"),
            ConfigValue::Array(vec![]),
            ConfigValue::Array(vec![text("a"), text("b")]),
            ConfigValue::Array(vec![text("a"), ConfigValue::Boolean(true), text("c")]),
            ConfigValue::Array(vec![ConfigValue::Other, text("b"), text("c")]),
            ConfigValue::Array(vec![text("a"), text("b"), ConfigValue::Array(vec![])]),
            ConfigValue::Other,
            ConfigValue::Array(long),
        ])),
    });
    let mut expected = builtin();
    expected.push(("cor".to_string(), "Corollary".to_string(), "**".to_string()));
    assert_eq!(described(pre.envs()), expected);
}

#[test]
fn custom_kinds_that_are_no_list_are_ignored() {
    let pre = NumThmPreprocessor::new(&Config {
        prefix: None,
        custom_environments: Some(text("conj")),
    });
    assert_eq!(described(pre.envs()), builtin());
}

#[test]
fn counters_run_through_the_whole_book() {
    let pre = NumThmPreprocessor::default();
    let mut book = vec![
        chapter("{{thm}} {{lem}} {{thm}}", Some("one.md"), Some("1.")),
        chapter("{{lem}} {{thm}}", Some("two.md"), Some("2.")),
        chapter("{{def}} {{thm}} {{lem}}", Some("sub/three.md"), Some("2.1.")),
    ];
    let warnings = pre.run(&mut book);
    assert!(warnings.is_empty());
    assert_eq!(book[0].content, "**Theorem 1.** **Lemma 1.** **Theorem 2.**");
    assert_eq!(book[1].content, "**Lemma 2.** **Theorem 3.**");
    assert_eq!(
        book[2].content,
        "**Definition 1.** **Theorem 4.** **Lemma 3.**"
    );
}

#[test]
fn prefix_is_the_section_number_of_the_chapter() {
    let pre = NumThmPreprocessor::new(&Config {
        prefix: Some(ConfigValue::Boolean(true)),
        custom_environments: None,
    });
    let mut book = vec![
        chapter("{{thm}}{a}", Some("one.md"), Some("1.")),
        chapter("{{thm}}", Some("preface.md"), None),
        chapter("{{thm}} {{ref: a}}", Some("two.md"), Some("1.2.")),
    ];
    pre.run(&mut book);
    assert_eq!(book[0].content, "<a name=\"a\"></a>\n**Theorem 1.1.**");
    assert_eq!(book[1].content, "**Theorem 2.**");
    assert_eq!(book[2].content, "**Theorem 1.2.3.** [Theorem 1.1](one.md#a)");
}

#[test]
fn section_number_is_not_used_without_the_prefix_flag() {
    let pre = NumThmPreprocessor::default();
    let mut book = vec![chapter("{{prop}}", Some("one.md"), Some("1.2."))];
    pre.run(&mut book);
    assert_eq!(book[0].content, "**Proposition 1.**");
}

#[test]
fn draft_chapters_are_passed_over() {
    let pre = NumThmPreprocessor::default();
    let mut book = vec![
        chapter("{{thm}}{a}", Some("one.md"), None),
        chapter("{{thm}}{b} {{ref: a}}", None, None),
        chapter("{{thm}} {{ref: b}}", Some("two.md"), None),
    ];
    let warnings = pre.run(&mut book);
    assert_eq!(book[0].content, "<a name=\"a\"></a>\n**Theorem 1.**");
    assert_eq!(book[1].content, "{{thm}}{b} {{ref: a}}");
    assert_eq!(book[2].content, "**Theorem 2.** **[??]**");
    assert_eq!(
        warnings,
        vec![Warning::UnknownReference {
            label: "b".to_string()
        }]
    );
    assert_eq!(book[1].path, None);
    assert_eq!(book[2].path, Some("two.md".to_string()));
}

#[test]
fn reference_may_point_to_a_later_chapter() {
    let pre = NumThmPreprocessor::default();
    let mut book = vec![
        chapter("see {{tref: late}}", Some("a/one.md"), None),
        chapter("{{lem}}{late}[Zorn]", Some("b/c/two.md"), None),
    ];
    let warnings = pre.run(&mut book);
    assert!(warnings.is_empty());
    assert_eq!(book[0].content, "see [Zorn](../b/c/two.md#late)");
    assert_eq!(book[1].content, "<a name=\"late\"></a>\n**Lemma 1 (Zorn).**");
}

#[test]
fn warnings_of_the_first_pass_come_first() {
    let pre = NumThmPreprocessor::default();
    let mut book = vec![
        chapter("{{ref: none}} {{thm}}{x}", Some("one.md"), None),
        chapter("{{lem}}{x} {{thm}}{x} {{ref: x}}", Some("two.md"), None),
    ];
    let warnings = pre.run(&mut book);
    assert_eq!(
        warnings,
        vec![
            Warning::DuplicateLabel {
                numbered_name: "Theorem 2".to_string(),
                label: "x".to_string()
            },
            Warning::DuplicateLabel {
                numbered_name: "Lemma 1".to_string(),
                label: "x".to_string()
            },
            Warning::UnknownReference {
                label: "none".to_string()
            },
        ]
    );
    assert_eq!(book[0].content, "**[??]** <a name=\"x\"></a>\n**Theorem 1.**");
    assert_eq!(
        book[1].content,
        "<a name=\"x\"></a>\n**Lemma 1.** <a name=\"x\"></a>\n**Theorem 2.** [Theorem 1](one.md#x)"
    );
}

#[test]
fn custom_kind_is_numbered_like_the_others() {
    let pre = NumThmPreprocessor::new(&Config {
        prefix: None,
        custom_environments: Some(ConfigValue::Array(vec![ConfigValue::Array(triple(
            "conj",
            "Conjecture",
            "_",
        ))])),
    });
    let mut book = vec![
        chapter("{{conj}}{c}[Goldbach]", Some("one.md"), None),
        chapter("{{conj}} {{tref: c}}", Some("two.md"), None),
    ];
    pre.run(&mut book);
    assert_eq!(
        book[0].content,
        "<a name=\"c\"></a>\n_Conjecture 1 (Goldbach)._"
    );
    assert_eq!(book[1].content, "_Conjecture 2._ [Goldbach](one.md#c)");
}

#[test]
fn empty_book_is_left_empty() {
    let pre = NumThmPreprocessor::default();
    let mut book: Vec<Chapter> = Vec::new();
    let warnings = pre.run(&mut book);
    assert!(book.is_empty());
    assert!(warnings.is_empty());
}
