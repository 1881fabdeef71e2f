use particle_sim::shader::{find_section, parse_shader, shader_sources, Shader, ShaderError};

fn pair(name: &str, code: &str) -> (String, String) {
    (name.to_string(), code.to_string())
}

#[test]
fn shader_keeps_its_id() {
    assert_eq!(Shader::from_program(7).get_id(), 7);
    assert_eq!(Shader::from_program(0).get_id(), 0);
}

#[test]
fn sections_follow_their_headings() {
    let source = "-- vertex\n#version 330 core\nvoid main() {}\n\n-- fragment\nout vec4 c;\n";
    assert_eq!(
        parse_shader(source),
        vec![
            pair("vertex", "#version 330 core\nvoid main() {}\n"),
            pair("fragment", "out vec4 c;\n"),
        ]
    );
}

#[test]
fn source_without_headings_has_no_sections() {
    assert_eq!(parse_shader(""), Vec::<(String, String)>::new());
    assert_eq!(parse_shader("\n\n"), Vec::<(String, String)>::new());
    assert_eq!(parse_shader("void main() {}\n"), Vec::<(String, String)>::new());
}

#[test]
fn text_before_the_first_heading_is_left_out() {
    assert_eq!(parse_shader("// preamble\n--a\nx"), vec![pair("a", "x\n")]);
}

#[test]
fn last_line_needs_no_line_feed() {
    assert_eq!(parse_shader("-- a\nx\n-- b"), vec![pair("a", "x\n"), pair("b", "")]);
    assert_eq!(parse_shader("-- a\nx"), vec![pair("a", "x\n")]);
}

#[test]
fn carriage_returns_before_line_feeds_are_dropped() {
    assert_eq!(parse_shader("-- a\r\nx\r\n\r\ny\r\n"), vec![pair("a", "x\ny\n")]);
    // a carriage return that ends the source stays
    assert_eq!(parse_shader("-- a\nx\r"), vec![pair("a", "x\r\n")]);
}

#[test]
fn heading_may_be_indented() {
    // white space before the hyphens makes a heading; blanks and hyphens are
    // taken off the front of the name, other white space is not
    assert_eq!(parse_shader("   -- - a b \nx\n"), vec![pair("a b ", "x\n")]);
    assert_eq!(parse_shader("\t-- a\nx\n"), vec![pair("\t-- a", "x\n")]);
    assert_eq!(parse_shader("\u{3000}--a\n"), vec![pair("\u{3000}--a", "")]);
}

#[test]
fn one_hyphen_is_code() {
    assert_eq!(parse_shader("--a\n- b\n-\n - - c\n"), vec![pair("a", "- b\n-\n - - c\n")]);
}

#[test]
fn blank_lines_count_as_code_but_empty_lines_do_not() {
    assert_eq!(parse_shader("--a\n \n\n\t\n"), vec![pair("a", " \n\t\n")]);
}

#[test]
fn heading_of_hyphens_only_has_an_empty_name() {
    assert_eq!(parse_shader("-----\nx\n"), vec![pair("", "x\n")]);
}

#[test]
fn characters_beyond_ascii_are_kept() {
    assert_eq!(parse_shader("-- größe\n// π ≈ 3\n"), vec![pair("größe", "// π ≈ 3\n")]);
}

#[test]
fn later_section_of_a_name_wins() {
    let sections = parse_shader("--a\n1\n--b\n2\n--a\n3\n");
    assert_eq!(sections, vec![pair("a", "1\n"), pair("b", "2\n"), pair("a", "3\n")]);
    assert_eq!(find_section(&sections, "a"), Some(&"3\n".to_string()));
    assert_eq!(find_section(&sections, "b"), Some(&"2\n".to_string()));
    assert_eq!(find_section(&sections, "c"), None);
    assert_eq!(find_section(&Vec::new(), "a"), None);
}

#[test]
fn both_sections_are_needed() {
    let source = "-- vertex\nv\n-- fragment\nf\n";
    assert_eq!(
        shader_sources(source, "vertex", "fragment"),
        Ok(("v\n".to_string(), "f\n".to_string()))
    );
    assert_eq!(shader_sources(source, "vertex", "geometry"), Err(ShaderError::NotFound));
    assert_eq!(shader_sources(source, "geometry", "fragment"), Err(ShaderError::NotFound));
    assert_eq!(shader_sources("", "vertex", "fragment"), Err(ShaderError::NotFound));
    assert_eq!(
        shader_sources(source, "vertex", "vertex"),
        Ok(("v\n".to_string(), "v\n".to_string()))
    );
}
