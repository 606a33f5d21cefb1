use numthm::compute_rel_path;

#[test]
fn same_chapter_gives_the_empty_path() {
    assert_eq!(compute_rel_path("a.md", "a.md"), "");
    assert_eq!(compute_rel_path("x/y/a.md", "x/y/a.md"), "");
    assert_eq!(compute_rel_path("", ""), "");
}

#[test]
fn same_chapter_written_with_more_separators() {
    assert_eq!(compute_rel_path("x//y/a.md", "x/y///a.md"), "");
}

#[test]
fn chapter_of_the_same_directory() {
    assert_eq!(compute_rel_path("dir/a.md", "dir/b.md"), "b.md");
    assert_eq!(compute_rel_path("a.md", "b.md"), "b.md");
}

#[test]
fn chapter_further_down() {
    assert_eq!(compute_rel_path("a.md", "dir/sub/b.md"), "dir/sub/b.md");
    assert_eq!(compute_rel_path("dir/a.md", "dir/sub/b.md"), "sub/b.md");
}

#[test]
fn chapter_further_up() {
    assert_eq!(compute_rel_path("x/y/z.md", "b.md"), "../../b.md");
    assert_eq!(compute_rel_path("x/y/z.md", "x/b.md"), "../b.md");
}

#[test]
fn chapter_of_another_branch() {
    assert_eq!(
        compute_rel_path("crypto/bls_signatures.md", "math/groups.md"),
        "../math/groups.md"
    );
    assert_eq!(
        compute_rel_path(
            "math/crypto/signatures/bls_signatures.md",
            "math/algebra/groups.md"
        ),
        "../../algebra/groups.md"
    );
}

#[test]
fn one_step_up_for_each_directory_left() {
    assert_eq!(compute_rel_path("a/b/c/d/e.md", "a/x.md"), "../../../x.md");
    assert_eq!(compute_rel_path("a/b/c/d/e.md", "z/x.md"), "../../../../z/x.md");
}

#[test]
fn redundant_separators_are_dropped() {
    assert_eq!(
        compute_rel_path(
            "math/crypto//signatures/bls_signatures.md",
            "math//algebra/groups.md"
        ),
        "../../algebra/groups.md"
    );
    assert_eq!(compute_rel_path("a//b.md", "c///d//e.md/"), "../c/d/e.md");
}

#[test]
fn same_name_in_another_directory() {
    assert_eq!(compute_rel_path("a/index.md", "b/index.md"), "../b/index.md");
}

#[test]
fn agrees_with_pathdiff_on_plain_paths() {
    let paths = [
        "a.md",
        "b.md",
        "dir/a.md",
        "dir/b.md",
        "dir/sub/a.md",
        "dir/sub/deep/c.md",
        "other/a.md",
        "other//sub/a.md",
        "x/y/z/w.md",
        "x/y.md",
    ];
    for from in paths {
        for to in paths {
            let expected = if std::path::Path::new(from) == std::path::Path::new(to) {
                String::new()
            } else {
                let mut base = std::path::PathBuf::from(from);
                base.pop();
                let rel = pathdiff::diff_paths(to, &base).unwrap();
                rel.to_str().unwrap().to_string()
            };
            assert_eq!(compute_rel_path(from, to), expected, "from {from} to {to}");
        }
    }
}
