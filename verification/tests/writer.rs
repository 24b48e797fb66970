use indented_text_writer::IndentedTextWriter;

#[test]
fn tests_generate_class() {
    let mut writer = IndentedTextWriter::new("  ", 1024, '{', '}');
    writer.write_line("struct Data {");
    writer.write_line("name: String,");
    writer.write_line("value: i32");
    writer.write_line("}");
    println!("{}", writer.string().unwrap());
}

#[test]
fn generates_nested_block_exactly() {
    let mut writer = IndentedTextWriter::new("  ", 64, '{', '}');
    writer.write_line("struct Data {");
    writer.write_line("name: string,");
    writer.write_line("value: int");
    writer.write_line("}");
    assert_eq!(
        writer.string().unwrap(),
        "struct Data {\n  name: string,\n  value: int\n}\n"
    );
}

#[test]
fn plain_writes_concatenate_without_indentation() {
    let mut writer = IndentedTextWriter::default();
    writer.write("i am building");
    writer.write(' ');
    writer.write("a string");
    assert_eq!(writer.string().unwrap(), "i am building a string");
}

#[test]
fn plain_writes_ignore_indent_level() {
    let mut writer = IndentedTextWriter::new("  ", 16, '{', '}');
    writer.indent();
    writer.indent();
    writer.write("a");
    writer.write("b");
    assert_eq!(writer.string().unwrap(), "ab");
}

#[test]
fn neutral_line_keeps_level_and_appends_line() {
    let mut writer = IndentedTextWriter::new("  ", 16, '{', '}');
    writer.indent();
    assert_eq!(writer.get_tab_line(), "  ");
    writer.write_line("abc");
    assert_eq!(writer.get_tab_line(), "  ");
    writer.write_line("def");
    assert_eq!(writer.get_tab_line(), "  ");
    assert_eq!(writer.string().unwrap(), "abc\n  def\n");
}

#[test]
fn get_tab_line_is_idempotent() {
    let mut writer = IndentedTextWriter::new("    ", 16, '{', '}');
    writer.indent();
    let first = writer.get_tab_line();
    let second = writer.get_tab_line();
    assert_eq!(first, second);
    assert_eq!(first, "    ");
}

#[test]
fn utf8_writes_always_decode() {
    let mut writer = IndentedTextWriter::new("  ", 16, '{', '}');
    writer.write_line("{");
    writer.write("text");
    writer.write('\u{e9}');
    writer.write(b'A');
    writer.write_line_no_tabs(String::from("tail"));
    assert!(writer.string().is_ok());
}

#[test]
fn braces_indent_and_dedent_symmetrically() {
    let mut writer = IndentedTextWriter::new("  ", 16, '{', '}');
    assert_eq!(writer.get_tab_line(), "");
    writer.write_line("{");
    assert_eq!(writer.get_tab_line(), "  ");
    writer.write_line("x");
    assert_eq!(writer.get_tab_line(), "  ");
    writer.write_line("}");
    assert_eq!(writer.get_tab_line(), "");
    assert_eq!(writer.string().unwrap(), "{\n  x\n}\n");
}

#[test]
fn net_delta_matches_single_open() {
    let mut multi = IndentedTextWriter::new("  ", 16, '{', '}');
    let mut single = IndentedTextWriter::new("  ", 16, '{', '}');
    multi.write_line("{ } {");
    single.write_line("{");
    assert_eq!(multi.get_tab_line(), single.get_tab_line());
    assert_eq!(multi.get_tab_line(), "  ");
}

#[test]
fn negative_level_emits_no_indentation() {
    let mut writer = IndentedTextWriter::default();
    writer.unindent();
    writer.write("x");
    assert_eq!(writer.len(), 1);
    assert_eq!(writer.string().unwrap(), "x");
}

#[test]
fn negative_level_tab_line_is_empty() {
    let mut writer = IndentedTextWriter::new("  ", 16, '{', '}');
    writer.unindent();
    assert_eq!(writer.get_tab_line(), "");
}

#[test]
fn raw_bytes_can_fail_to_decode() {
    let mut writer = IndentedTextWriter::new("  ", 16, '{', '}');
    writer.write(0xFFu8);
    assert!(writer.string().is_err());
}

#[test]
fn byte_slices_append_verbatim() {
    let mut writer = IndentedTextWriter::new("  ", 16, '{', '}');
    writer.write(&b"ok"[..]);
    assert_eq!(writer.len(), 2);
    assert_eq!(writer.string().unwrap(), "ok");
}

#[test]
fn chars_encode_as_utf8() {
    let mut writer = IndentedTextWriter::new("  ", 16, '{', '}');
    writer.write('A');
    writer.write('\u{e9}');
    writer.write('\u{20ac}');
    writer.write('\u{1f980}');
    assert_eq!(writer.len(), 1 + 2 + 3 + 4);
    assert_eq!(writer.string().unwrap(), "A\u{e9}\u{20ac}\u{1f980}");
}

#[test]
fn write_no_tabs_bypasses_pending_indentation() {
    let mut writer = IndentedTextWriter::new("  ", 16, '{', '}');
    writer.write_line("{");
    writer.write_no_tabs("x");
    writer.write("y");
    assert_eq!(writer.string().unwrap(), "{\nx  y");
}

#[test]
fn write_line_no_tabs_skips_indent_accounting() {
    let mut writer = IndentedTextWriter::new("  ", 16, '{', '}');
    writer.write_line_no_tabs("{");
    assert_eq!(writer.get_tab_line(), "");
    assert_eq!(writer.string().unwrap(), "{\n");
}

#[test]
fn len_counts_only_appended_bytes() {
    let mut writer = IndentedTextWriter::default();
    writer.write("four");
    assert_eq!(writer.len(), 4);
    writer.indent();
    writer.write_line("{");
    assert_eq!(writer.len(), 6);
}

#[test]
fn empty_indent_unit_tracks_level_without_text() {
    let mut writer = IndentedTextWriter::new("", 8, '{', '}');
    writer.write_line("{");
    assert_eq!(writer.get_tab_line(), "");
    writer.write_line("x");
    writer.write_line("}");
    assert_eq!(writer.string().unwrap(), "{\nx\n}\n");
}

#[test]
fn signed_level_adjustments_are_symmetric() {
    let mut writer = IndentedTextWriter::new(" ", 16, '{', '}');
    writer.indents(3);
    assert_eq!(writer.get_tab_line(), "   ");
    writer.indents(-1);
    assert_eq!(writer.get_tab_line(), "  ");
    writer.unindents(-2);
    assert_eq!(writer.get_tab_line(), "    ");
    writer.unindents(4);
    assert_eq!(writer.get_tab_line(), "");
}

#[test]
fn custom_delimiters_drive_auto_indent() {
    let mut writer = IndentedTextWriter::new("\t", 8, '<', '>');
    writer.write_line("<");
    writer.write_line("x");
    writer.write_line(">");
    assert_eq!(writer.string().unwrap(), "<\n\tx\n>\n");
}

#[test]
fn multibyte_delimiter_needs_full_character() {
    // U+2200 shares its UTF-8 lead byte with the delimiter U+20AC but is a
    // different character, so the level must not move.
    let mut writer = IndentedTextWriter::new("  ", 16, '\u{20ac}', '\u{a5}');
    writer.write_line("\u{2200}");
    assert_eq!(writer.get_tab_line(), "");
    writer.write_line("a\u{20ac}b");
    assert_eq!(writer.get_tab_line(), "  ");
}

#[test]
fn multibyte_delimiters_nest_symmetrically() {
    let mut writer = IndentedTextWriter::new("  ", 16, '\u{ab}', '\u{bb}');
    writer.write_line("\u{ab}");
    assert_eq!(writer.get_tab_line(), "  ");
    writer.write_line("x");
    writer.write_line("\u{bb}");
    assert_eq!(writer.get_tab_line(), "");
    assert_eq!(writer.string().unwrap(), "\u{ab}\n  x\n\u{bb}\n");
}

#[test]
fn default_writer_uses_one_space_and_braces() {
    let mut writer = IndentedTextWriter::default();
    writer.write_line("{");
    writer.write_line("x");
    writer.write_line("}");
    assert_eq!(writer.string().unwrap(), "{\n x\n}\n");
}
