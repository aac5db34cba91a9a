use cade::compiler::{Compiler, ParseError, Parser};

fn strings(v: &[&str]) -> Vec<String> {
    v.iter().map(|s| s.to_string()).collect()
}

#[test]
fn gcc_extracts_source_output_and_dep_file() {
    let c = Compiler::new("gcc", None).unwrap();
    assert_eq!(c.get_name(), "gcc");
    let r = c.parse_args(&strings(&["-c", "src.c", "-o", "out.o", "-MF", "out.d", "-Wall"]), &Vec::new(), "/w").unwrap();
    assert_eq!(r.source_file.as_deref(), Some("src.c"));
    assert_eq!(r.out_file.as_deref(), Some("out.o"));
    assert_eq!(r.dep_file.as_deref(), Some("out.d"));
    assert_eq!(r.processed_args, strings(&["-csrc.c", "-oout.o", "-MFout.d", "-Wall"]));
    assert!(r.participates());
}

#[test]
fn glued_and_detached_output_parse_alike() {
    let c = Compiler::new("g++", None).unwrap();
    let glued = c.parse_args(&strings(&["-ofoo.o", "-c", "a.c"]), &Vec::new(), "/w").unwrap();
    let detached = c.parse_args(&strings(&["-o", "foo.o", "-c", "a.c"]), &Vec::new(), "/w").unwrap();
    assert_eq!(glued.processed_args, detached.processed_args);
    assert_eq!(glued.out_file, detached.out_file);
    assert_eq!(glued.out_file.as_deref(), Some("foo.o"));
}

#[test]
fn absolute_paths_become_relative_to_the_working_directory() {
    let c = Compiler::new("gcc", None).unwrap();
    let r = c.parse_args(&strings(&["-c", "/w/src/a.c", "-I/w/inc"]), &Vec::new(), "/w").unwrap();
    assert_eq!(r.source_file.as_deref(), Some("src/a.c"));
    assert_eq!(r.processed_args, strings(&["-csrc/a.c", "-Iinc"]));
}

#[test]
fn nested_response_files_flatten_like_one_file() {
    let c = Compiler::new("gcc", None).unwrap();
    let files = vec![
        Parser::from_content("outer.rsp".to_string(), "-c\nsrc.c\n@inner.rsp\n-Wall\n"),
        Parser::from_content("inner.rsp".to_string(), "-o out.o\r\n-MFout.d"),
        Parser::from_content("flat.rsp".to_string(), "-c\nsrc.c\n-o out.o\n-MFout.d\n-Wall\n"),
    ];
    let nested = c.parse_args(&strings(&["@outer.rsp"]), &files, "/w").unwrap();
    let flat = c.parse_args(&strings(&["@", "flat.rsp"]), &files, "/w").unwrap();
    assert_eq!(nested.processed_args, flat.processed_args);
    assert_eq!(nested.out_file.as_deref(), Some(" out.o"));
    assert_eq!(nested.dep_file.as_deref(), Some("out.d"));
    assert_eq!(nested.source_file.as_deref(), Some("src.c"));
}

#[test]
fn response_file_paths_do_not_override_outer_ones() {
    let c = Compiler::new("gcc", None).unwrap();
    let files = vec![Parser::from_content("r".to_string(), "-oinner.o\n-cinner.c")];
    let r = c.parse_args(&strings(&["-oouter.o", "@r", "-cafter.c"]), &files, "/w").unwrap();
    assert_eq!(r.out_file.as_deref(), Some("outer.o"));
    assert_eq!(r.source_file.as_deref(), Some("after.c"));
}

#[test]
fn missing_response_file_is_named() {
    let c = Compiler::new("gcc", None).unwrap();
    match c.parse_args(&strings(&["-c", "a.c", "@args.rsp"]), &Vec::new(), "/w") {
        Err(ParseError::MissingResponseFile(p)) => assert_eq!(p, "args.rsp"),
        _ => panic!("expected a missing response file"),
    }
}

#[test]
fn prefix_without_operand_is_an_error() {
    let c = Compiler::new("gcc", None).unwrap();
    assert!(matches!(c.parse_args(&strings(&["-c", "a.c", "-o"]), &Vec::new(), "/w"), Err(ParseError::MissingArgument)));
    assert!(matches!(c.parse_args(&strings(&["@"]), &Vec::new(), "/w"), Err(ParseError::MissingArgument)));
}

#[test]
fn response_files_in_a_cycle_are_refused() {
    let c = Compiler::new("gcc", None).unwrap();
    let files = vec![
        Parser::from_content("a".to_string(), "@b"),
        Parser::from_content("b".to_string(), "@a"),
    ];
    assert!(matches!(c.parse_args(&strings(&["@a"]), &files, "/w"), Err(ParseError::ResponseFileCycle)));
}

#[test]
fn base_dir_is_removed_from_every_argument() {
    let c = Compiler::new("gcc", Some("/base".to_string())).unwrap();
    let r = c.parse_args(&strings(&["-Dx=/base/y", "-c", "rel/a.c"]), &Vec::new(), "/w").unwrap();
    assert_eq!(r.processed_args, strings(&["-Dx=/y", "-crel/a.c"]));
}

#[test]
fn tasking_uses_its_own_prefixes() {
    let c = Compiler::new("cctc", None).unwrap();
    assert_eq!(c.get_name(), "tasking");
    let files = vec![Parser::from_content("opts".to_string(), "-c\nm.c")];
    let r = c.parse_args(&strings(&["--option-file=opts", "--dep-file=m.d", "-o", "m.o"]), &files, "/w").unwrap();
    assert_eq!(r.dep_file.as_deref(), Some("m.d"));
    assert_eq!(r.source_file.as_deref(), Some("m.c"));
    assert_eq!(r.processed_args, strings(&["-cm.c", "--dep-file=m.d", "-om.o"]));
}

#[test]
fn unknown_compiler_is_refused() {
    assert!(Compiler::new("clang", None).is_none());
}

#[test]
fn incomplete_arguments_do_not_participate() {
    let c = Compiler::new("gcc", None).unwrap();
    let r = c.parse_args(&strings(&["-c", "a.c", "-o", "a.o"]), &Vec::new(), "/w").unwrap();
    assert!(!r.participates());
}

#[test]
fn response_file_lines() {
    let p = Parser::from_content("f".to_string(), "a\r\n\nb\nc\r");
    assert_eq!(p.args, strings(&["a", "", "b", "c\r"]));
    assert!(Parser::from_content("f".to_string(), "").args.is_empty());
}
