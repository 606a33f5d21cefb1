use numthm::{find_and_replace_envs, find_and_replace_refs, Env, LabelInfo, Registry};

const SECNUM: &str = "1.2.";
const PATH: &str = "crypto/groups.md";

fn thm() -> Env {
    Env {
        key: "thm".to_string(),
        name: "Theorem".to_string(),
        emph: "**".to_string(),
    }
}

fn prop() -> Env {
    Env {
        key: "prop".to_string(),
        name: "Proposition".to_string(),
        emph: "**".to_string(),
    }
}

#[test]
fn wo_label_wo_title() {
    let mut refs = Registry::new();
    let input = String::from(r"{{prop}}");
    let output = find_and_replace_envs(&input, SECNUM, PATH, &prop(), 0, &mut refs).content;
    let expected = String::from("**Proposition 1.2.1.**");
    assert_eq!(output, expected);
    assert!(refs.is_empty());
}

#[test]
fn with_label_wo_title() {
    let mut refs = Registry::new();
    let input = String::from(r"{{prop}}{prop:lagrange}");
    let output = find_and_replace_envs(&input, SECNUM, PATH, &prop(), 0, &mut refs).content;
    let expected = String::from(
        "<a name=\"prop:lagrange\"></a>\n\
            **Proposition 1.2.1.**",
    );
    assert_eq!(output, expected);
    assert_eq!(refs.len(), 1);
    assert_eq!(
        *refs.get("prop:lagrange").unwrap(),
        LabelInfo {
            num_name: "Proposition 1.2.1".to_string(),
            path: "crypto/groups.md".into(),
            title: None,
        }
    )
}

#[test]
fn wo_label_with_title() {
    let mut refs = Registry::new();
    let input = String::from(r"{{prop}}[Lagrange Theorem]");
    let output = find_and_replace_envs(&input, SECNUM, PATH, &prop(), 0, &mut refs).content;
    let expected = String::from("**Proposition 1.2.1 (Lagrange Theorem).**");
    assert_eq!(output, expected);
    assert!(refs.is_empty());
}

#[test]
fn with_label_with_title() {
    let mut refs = Registry::new();
    let input = String::from(r"{{prop}}{prop:lagrange}[Lagrange Theorem]");
    let output = find_and_replace_envs(&input, SECNUM, PATH, &prop(), 0, &mut refs).content;
    let expected = String::from(
        "<a name=\"prop:lagrange\"></a>\n\
            **Proposition 1.2.1 (Lagrange Theorem).**",
    );
    assert_eq!(output, expected);
}

#[test]
fn double_label() {
    let mut refs = Registry::new();
    let input = String::from(
        r"{{prop}}{prop:lagrange}[Lagrange Theorem] {{thm}}{prop:lagrange}[Another Lagrange Theorem]",
    );
    let output = find_and_replace_envs(&input, SECNUM, PATH, &prop(), 0, &mut refs).content;
    let output = find_and_replace_envs(&output, SECNUM, PATH, &thm(), 0, &mut refs).content;
    let expected = String::from(
        "<a name=\"prop:lagrange\"></a>\n\
            **Proposition 1.2.1 (Lagrange Theorem).** \
            <a name=\"prop:lagrange\"></a>\n\
            **Theorem 1.2.1 (Another Lagrange Theorem).**",
    );
    assert_eq!(output, expected);
    assert_eq!(refs.len(), 1);
}

#[test]
fn label_and_ref_in_same_file() {
    let mut refs = Registry::new();
    let input = String::from(r"{{prop}}{prop:lagrange}[Lagrange Theorem] {{ref: prop:lagrange}}");
    let output = find_and_replace_envs(&input, SECNUM, PATH, &prop(), 0, &mut refs).content;
    let output = find_and_replace_refs(&output, PATH, &refs).content;
    let expected = String::from(
        "<a name=\"prop:lagrange\"></a>\n\
            **Proposition 1.2.1 (Lagrange Theorem).** \
            [Proposition 1.2.1](#prop:lagrange)",
    );
    assert_eq!(output, expected);
}

#[test]
fn label_and_ref_in_different_files() {
    let mut refs = Registry::new();
    let label_file = "math/groups.md";
    let ref_file = "crypto/bls_signatures.md";
    let label_input = String::from(r"{{prop}}{prop:lagrange}[Lagrange Theorem]");
    let ref_input = String::from(r"{{ref: prop:lagrange}}");
    let _label_output =
        find_and_replace_envs(&label_input, SECNUM, label_file, &prop(), 0, &mut refs);
    let ref_output = find_and_replace_refs(&ref_input, ref_file, &refs).content;
    let expected = String::from("[Proposition 1.2.1](../math/groups.md#prop:lagrange)");
    assert_eq!(ref_output, expected);
}

#[test]
fn label_and_ref_in_different_files_2() {
    let mut refs = Registry::new();
    let label_file = "math/algebra/groups.md";
    let ref_file = "math/crypto//signatures/bls_signatures.md";
    let label_input = String::from(r"{{prop}}{prop:lagrange}[Lagrange Theorem]");
    let ref_input = String::from(r"{{ref: prop:lagrange}}");
    let _label_output =
        find_and_replace_envs(&label_input, SECNUM, label_file, &prop(), 0, &mut refs);
    let ref_output = find_and_replace_refs(&ref_input, ref_file, &refs).content;
    let expected = String::from("[Proposition 1.2.1](../../algebra/groups.md#prop:lagrange)");
    assert_eq!(ref_output, expected);
}

#[test]
fn title_ref() {
    let mut refs = Registry::new();
    let label_file = "math/algebra/groups.md";
    let ref_file = "math/crypto//signatures/bls_signatures.md";
    let label_input = String::from(r"{{prop}}{prop:lagrange}[Lagrange Theorem]");
    let ref_input = String::from(r"{{tref: prop:lagrange}}");
    let _label_output =
        find_and_replace_envs(&label_input, SECNUM, label_file, &prop(), 0, &mut refs);
    let ref_output = find_and_replace_refs(&ref_input, ref_file, &refs).content;
    let expected = String::from("[Lagrange Theorem](../../algebra/groups.md#prop:lagrange)");
    assert_eq!(ref_output, expected);
}

#[test]
fn title_ref_without_title() {
    let mut refs = Registry::new();
    let label_file = "math/algebra/groups.md";
    let ref_file = "math/crypto//signatures/bls_signatures.md";
    let label_input = String::from(r"{{prop}}{prop:lagrange}");
    let ref_input = String::from(r"{{tref: prop:lagrange}}");
    let _label_output =
        find_and_replace_envs(&label_input, SECNUM, label_file, &prop(), 0, &mut refs);
    let ref_output = find_and_replace_refs(&ref_input, ref_file, &refs).content;
    let expected = String::from("[Proposition 1.2.1](../../algebra/groups.md#prop:lagrange)");
    assert_eq!(ref_output, expected);
}
