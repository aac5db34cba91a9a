use cade::dep_parser::DepParser;

#[test]
fn test_parse() {
    let content = "a:\\\r\n\
        b\r\n\
        c:\\\r\n\
        d\r\n\
        e:\r\n\
        f\r\n\
        g:\r\n\
        h";
    let dep_parser = DepParser::new(content);
    let expected = vec!["b", "d"];
    assert_eq!(dep_parser.deps, expected);
    assert_eq!(dep_parser.target, "a");
}

#[test]
fn test_escape() {
    let content = "\"a\":\\\n\
        \"b\"\n\
        \"c\":\\\n\
        \"d\"\n\
        \"e\":\n\
        \"f\"\n\
        \"g\":\n\
        h";
    let dep_parser = DepParser::new(content);
    let expected = vec!["b", "d"];
    assert_eq!(dep_parser.deps, expected);
    assert_eq!(dep_parser.target, "a");
}

#[test]
fn test_escape2() {
    let content = "\"a\":	\"b c\" d";
    let dep_parser = DepParser::new(content);
    let expected = vec!["b c", "d"];
    assert_eq!(dep_parser.deps, expected);
    assert_eq!(dep_parser.target, "a");
}

#[test]
fn test_escape3() {
    let content = "\"a:\\bla\": \"b:/test c\" \"d\"";
    let dep_parser = DepParser::new(content);
    let expected = vec!["b:/test c", "d"];
    assert_eq!(dep_parser.deps, expected);
    assert_eq!(dep_parser.target, "a:\\bla");
}

#[test]
fn test_escape4() {
    let content = "a: b\\ c\\ d e f";
    let dep_parser = DepParser::new(content);
    let expected = vec!["b\\ c\\ d", "e", "f"];
    assert_eq!(dep_parser.deps, expected);
}

#[test]
fn test_escape5() {
    let content = "a\\ b: c d";
    let dep_parser = DepParser::new(content);
    let expected = vec!["c", "d"];
    assert_eq!(dep_parser.deps, expected);
    assert_eq!(dep_parser.target, "a\\ b");
}

#[test]
fn test_duplicates() {
    let content = "a: b c b d c";
    let dep_parser = DepParser::new(content);
    let expected = vec!["b", "c", "d"];
    assert_eq!(dep_parser.deps, expected);
    assert_eq!(dep_parser.target, "a");
}

#[test]
fn duplicates_differing_in_case_keep_first() {
    let p = DepParser::new("a: b c B d c");
    assert_eq!(p.deps, vec!["b", "c", "d"]);
    assert_eq!(p.target, "a");
}

#[test]
fn render_lists_each_prerequisite_on_a_continued_line() {
    let p = DepParser::new("out.o: src.c h.h");
    assert_eq!(p.get_dep_file_string(), "out.o: \\\nsrc.c \\\nh.h");
}

#[test]
fn parse_of_render_keeps_target_and_prerequisites() {
    let text = "obj/x.o: src/x.c inc/a.h \\\n inc/b.h INC/A.H";
    let first = DepParser::new(text);
    let again = DepParser::new(&first.get_dep_file_string());
    assert_eq!(again.deps, first.deps);
    assert_eq!(again.target, first.target);
    assert_eq!(first.deps, vec!["src/x.c", "inc/a.h", "inc/b.h"]);
}

#[test]
fn text_without_target_has_empty_target_and_no_prerequisites() {
    let p = DepParser::new("just words here");
    assert_eq!(p.target, "");
    assert!(p.deps.is_empty());
}

#[test]
fn empty_text_parses_to_nothing() {
    let p = DepParser::new("");
    assert_eq!(p.target, "");
    assert!(p.deps.is_empty());
    assert_eq!(p.get_dep_file_string(), ":");
}

#[test]
fn files_to_hash_unescape_spaces() {
    let p = DepParser::new("a: b\\ c d");
    assert_eq!(p.deps, vec!["b\\ c", "d"]);
    assert_eq!(p.files_to_hash(), vec!["b c".to_string(), "d".to_string()]);
}

#[test]
fn crlf_continuation_is_folded() {
    let p = DepParser::new("t: x \\\r\n y\r\n");
    assert_eq!(p.deps, vec!["x", "y"]);
    assert_eq!(p.target, "t");
}
