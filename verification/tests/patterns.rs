use numthm::{find_and_replace_envs, find_and_replace_refs, Env, Registry, Warning};
use regex::{Captures, Regex};

const TEXTS: [&str; 24] = [
    "",
    "plain text",
    "{{thm}}",
    "{{thm}}{a}",
    "{{thm}}[T]",
    "{{thm}}{a}[T]",
    "{{thm}}[T]{a}",
    "{{thm}}{{thm}}",
    "{{thm}} {{thm}}{x}[y] {{thm}}[z]{w}",
    "{{thm}}{unclosed [T]",
    "{{thm}}{a}[unclosed {{thm}}",
    "{{thm}}{a}b}[c]d]",
    "{{thm}}{}[]",
    "{{thm}}{a\nb}[c\nd]",
    "{{thm}}{\u{e9}t\u{e9}}[\u{3b1}\u{3b2}]",
    "{{{thm}}}",
    "{{thm} {{thm {thm}} {{ thm}}",
    "{{a.c}} {{abc}} {{a.c}}{l}",
    "{{ref: a}} {{tref: b}} {{ref:c}}",
    "{{ref:   a b \t}}{{tref:\n\nx\n}}",
    "{{ref: a}b}}} {{ref: }} {{ref:}}",
    "{{ref: open {{tref: inner}} }}",
    "{{ref:{{ref:a}}}}",
    "{{tref: a\u{a0}}} {{ref:\u{2003}b\u{3000}}} {{ref: c",
];

fn expected_envs(text: &str, key: &str, name: &str, emph: &str, prefix: &str) -> String {
    let pattern = format!(
        r"(?s)\{{\{{{}\}}\}}(\{{(?P<label>.*?)\}})?(\[(?P<title>.*?)\])?",
        regex::escape(key)
    );
    let re = Regex::new(&pattern).unwrap();
    let mut ctr = 0;
    re.replace_all(text, |caps: &Captures| {
        ctr += 1;
        let anchor = match caps.name("label") {
            Some(l) => format!("<a name=\"{}\"></a>\n", l.as_str()),
            None => String::new(),
        };
        let title = match caps.name("title") {
            Some(t) => format!(" ({})", t.as_str()),
            None => String::new(),
        };
        format!("{anchor}{emph}{name} {prefix}{ctr}{title}.{emph}")
    })
    .to_string()
}

fn expected_refs(text: &str) -> (String, Vec<String>) {
    let re = Regex::new(r"(?s)\{\{(?P<reftype>ref:|tref:)\s*(?P<label>.*?)\s*\}\}").unwrap();
    let mut labels = Vec::new();
    let out = re
        .replace_all(text, |caps: &Captures| {
            labels.push(caps.name("label").unwrap().as_str().to_string());
            "**[??]**".to_string()
        })
        .to_string();
    (out, labels)
}

#[test]
fn declarations_are_found_where_the_pattern_finds_them() {
    for (key, name, emph) in [("thm", "Theorem", "**"), ("a.c", "Claim", "*")] {
        let env = Env {
            key: key.to_string(),
            name: name.to_string(),
            emph: emph.to_string(),
        };
        for text in TEXTS {
            let mut refs = Registry::new();
            let r = find_and_replace_envs(text, "1.", "a.md", &env, 0, &mut refs);
            assert_eq!(
                r.content,
                expected_envs(text, key, name, emph, "1."),
                "key {key:?} in {text:?}"
            );
        }
    }
}

#[test]
fn references_are_found_where_the_pattern_finds_them() {
    for text in TEXTS {
        let refs = Registry::new();
        let r = find_and_replace_refs(text, "a.md", &refs);
        let (content, labels) = expected_refs(text);
        assert_eq!(r.content, content, "in {text:?}");
        let warned: Vec<String> = r
            .warnings
            .iter()
            .map(|w| match w {
                Warning::UnknownReference { label } => label.clone(),
                Warning::DuplicateLabel { label, .. } => format!("duplicate {label}"),
            })
            .collect();
        assert_eq!(warned, labels, "in {text:?}");
    }
}
