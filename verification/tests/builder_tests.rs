use sorse_header::{LimitedSink, SorseHeader, StringSink};

#[test]
fn new_builder_is_empty() {
    let h = SorseHeader::new("out.h");
    assert_eq!(h.path, "out.h");
    assert_eq!(h.render(), "");
}

#[test]
fn concrete_version_debug_scenario() {
    let mut h = SorseHeader::new("version.h");
    h.define("VERSION", Some("\"1.0\""));
    h.define("DEBUG", None);
    assert_eq!(h.render(), "#define VERSION \"1.0\"\n#define DEBUG\n");
}

#[test]
fn redefinition_keeps_position() {
    let mut h = SorseHeader::new("out.h");
    h.define("A", Some("1"));
    h.define("B", Some("2"));
    h.define("A", Some("3"));
    assert_eq!(h.render(), "#define A 3\n#define B 2\n");
}

#[test]
fn absent_value_has_no_trailing_space() {
    let mut h = SorseHeader::new("out.h");
    h.define("NAME", None);
    assert_eq!(h.render(), "#define NAME\n");
}

#[test]
fn one_line_per_name_in_first_insertion_order() {
    let mut h = SorseHeader::new("out.h");
    h.define("X", Some("1"));
    h.define("Y", None);
    h.define("Z", Some("3"));
    h.define("Y", Some("22"));
    h.define("X", None);
    h.define("X", Some("111"));
    assert_eq!(h.render(), "#define X 111\n#define Y 22\n#define Z 3\n");
}

#[test]
fn define_calls_chain() {
    let mut h = SorseHeader::new("out.h");
    h.define("A", Some("1")).define("B", None).define("C", Some("3"));
    assert_eq!(h.render(), "#define A 1\n#define B\n#define C 3\n");
}

#[test]
fn duplicate_block_appears_once() {
    let mut h = SorseHeader::new("out.h");
    let consumed = h.ingest(b"typedef int handle;\n").unwrap();
    assert_eq!(consumed, 20);
    h.ingest(b"typedef int handle;\n").unwrap();
    assert_eq!(h.render(), "typedef int handle;\n");
}

#[test]
fn distinct_blocks_keep_insertion_order() {
    let mut h = SorseHeader::new("out.h");
    h.ingest(b"second\n").unwrap();
    h.ingest(b"first\n").unwrap();
    h.ingest(b"second\n").unwrap();
    assert_eq!(h.render(), "second\nfirst\n");
}

#[test]
fn blocks_follow_macros() {
    let mut h = SorseHeader::new("out.h");
    h.ingest(b"struct point { int x; int y; };\n").unwrap();
    h.define("ORIGIN", Some("0"));
    assert_eq!(h.render(), "#define ORIGIN 0\nstruct point { int x; int y; };\n");
}

#[test]
fn invalid_encoding_is_replaced_not_rejected() {
    let mut h = SorseHeader::new("out.h");
    let consumed = h.ingest(&[0xff, 0xfe, b'\n']).unwrap();
    assert_eq!(consumed, 3);
    assert_eq!(h.render(), "\u{fffd}\u{fffd}\n");
}

#[test]
fn flush_changes_nothing_and_never_fails() {
    let mut h = SorseHeader::new("out.h");
    h.define("KEEP", Some("1"));
    assert!(h.flush().is_ok());
    assert_eq!(h.render(), "#define KEEP 1\n");
}

#[test]
fn write_to_appends_rendered_text() {
    let mut h = SorseHeader::new("out.h");
    h.define("PI_TIMES_100", Some("314"));
    let mut sink = StringSink::new();
    assert!(h.write_to(&mut sink).is_ok());
    assert_eq!(sink.into_string(), "#define PI_TIMES_100 314\n");
}

#[test]
fn write_to_twice_gives_identical_output() {
    let mut h = SorseHeader::new("out.h");
    h.define("A", Some("1"));
    h.define("B", None);
    h.ingest(b"int min(int a, int b);\n").unwrap();
    let mut first = StringSink::new();
    let mut second = StringSink::new();
    assert!(h.write_to(&mut first).is_ok());
    assert!(h.write_to(&mut second).is_ok());
    assert_eq!(first.into_string(), second.into_string());
}

#[test]
fn sink_failure_is_a_recoverable_result() {
    let mut h = SorseHeader::new("out.h");
    h.define("A", Some("1"));
    let mut sink = LimitedSink::new(0);
    let result = h.write_to(&mut sink);
    assert!(result.is_err());
    assert_eq!(sink.into_string(), "");
}

#[test]
fn first_failure_stops_emission_with_a_prefix_written() {
    let mut h = SorseHeader::new("out.h");
    h.define("A", Some("1"));
    h.define("B", Some("2"));
    h.define("C", Some("3"));
    let mut sink = LimitedSink::new(2);
    let result = h.write_to(&mut sink);
    assert!(result.is_err());
    let accepted = sink.into_string();
    assert_eq!(accepted, "#define A 1\n#define B 2\n");
    assert!("#define A 1\n#define B 2\n#define C 3\n".starts_with(&accepted));
}
