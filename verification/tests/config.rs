use litfile::config::{
    render, substitution_block, substitution_line, suffix, suffix_line, template, CONFIG_NAME,
    SUBSTITUTIONS_MARKER, SUFFIX_MARKER, TEMPLATE_HEAD,
};
use litfile::defines::Defines;

fn set_of(pairs: &[(&str, &str)]) -> Defines {
    let mut set = Defines::new();
    for (key, value) in pairs {
        set.insert(key.to_string(), value.to_string());
    }
    set
}

#[test]
fn names_of_the_configuration() {
    assert_eq!(CONFIG_NAME, "lit.cfg.py");
    assert_eq!(SUFFIX_MARKER, "### __LITFILE_SUFFIX__");
    assert_eq!(SUBSTITUTIONS_MARKER, "### __LITFILE_SUBSTITUTIONS__");
}

#[test]
fn template_holds_each_marker_once_behind_its_head() {
    let text = template();
    assert_eq!(
        text,
        format!("{}{}\n\n{}\n", TEMPLATE_HEAD, SUFFIX_MARKER, SUBSTITUTIONS_MARKER)
    );
    assert_eq!(text.matches(SUFFIX_MARKER).count(), 1);
    assert_eq!(text.matches(SUBSTITUTIONS_MARKER).count(), 1);
    assert!(!TEMPLATE_HEAD.contains('#'));
}

#[test]
fn suffix_is_a_dot_and_the_extension() {
    assert_eq!(suffix("txt"), ".txt");
    assert_eq!(suffix("c"), ".c");
    assert_eq!(suffix(""), ".");
}

#[test]
fn suffix_line_names_the_suffix() {
    assert_eq!(suffix_line(".txt"), "config.suffixes = [\".txt\"]");
    assert_eq!(suffix_line(""), "config.suffixes = [\"\"]");
}

#[test]
fn substitution_line_puts_the_key_behind_a_percent_sign() {
    assert_eq!(
        substitution_line("CLANG", "/usr/bin/clang"),
        "config.substitutions.append((\"%CLANG\", \"/usr/bin/clang\"))"
    );
    assert_eq!(substitution_line("", ""), "config.substitutions.append((\"%\", \"\"))");
}

#[test]
fn substitution_block_without_substitutions_is_empty() {
    assert_eq!(substitution_block(&Defines::new()), "");
}

#[test]
fn substitution_block_has_one_line_for_each_substitution() {
    assert_eq!(
        substitution_block(&set_of(&[("A", "1")])),
        "config.substitutions.append((\"%A\", \"1\"))"
    );
    assert_eq!(
        substitution_block(&set_of(&[("A", "1"), ("B", "two words")])),
        "config.substitutions.append((\"%A\", \"1\"))\n\
         config.substitutions.append((\"%B\", \"two words\"))"
    );
}

#[test]
fn render_replaces_both_markers() {
    let out = render(
        "top\n### __LITFILE_SUFFIX__\nmid\n### __LITFILE_SUBSTITUTIONS__\nend",
        ".c",
        &set_of(&[("CC", "clang")]),
    );
    assert_eq!(
        out,
        "top\n\
         config.suffixes = [\".c\"]\n\
         mid\n\
         config.substitutions.append((\"%CC\", \"clang\"))\n\
         end"
    );
}

#[test]
fn render_replaces_a_marker_wherever_it_stands() {
    let out = render(
        "### __LITFILE_SUFFIX__ ### __LITFILE_SUFFIX__",
        ".c",
        &Defines::new(),
    );
    assert_eq!(out, "config.suffixes = [\".c\"] config.suffixes = [\".c\"]");
}

#[test]
fn render_leaves_a_template_without_markers() {
    assert_eq!(render("nothing to do", ".c", &set_of(&[("A", "1")])), "nothing to do");
    assert_eq!(render("", ".c", &Defines::new()), "");
}

#[test]
fn render_without_substitutions_empties_the_block() {
    let out = render("a\n### __LITFILE_SUBSTITUTIONS__\nb", ".c", &Defines::new());
    assert_eq!(out, "a\n\nb");
}

#[test]
fn render_seeks_the_second_marker_in_the_text_with_the_suffix_line() {
    let out = render(
        "### __LITFILE_SUFFIX__",
        "### __LITFILE_SUBSTITUTIONS__",
        &set_of(&[("A", "1")]),
    );
    assert_eq!(
        out,
        "config.suffixes = [\"config.substitutions.append((\"%A\", \"1\"))\"]"
    );
}

#[test]
fn render_of_the_built_in_template() {
    let out = render(&template(), ".txt", &set_of(&[("CLANG", "/usr/bin/clang"), ("O", "-O2")]));
    assert_eq!(
        out,
        "import lit.formats\n\
         \n\
         config.name = \"litfile\"\n\
         config.test_format = lit.formats.ShTest(True)\n\
         config.excludes = [\"lit.cfg.py\"]\n\
         \n\
         config.suffixes = [\".txt\"]\n\
         \n\
         config.substitutions.append((\"%CLANG\", \"/usr/bin/clang\"))\n\
         config.substitutions.append((\"%O\", \"-O2\"))\n"
    );
}
