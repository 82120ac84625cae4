use ezsite::diag::TranspileError;
use ezsite::machine::{input_ok, transpile, Transpiler};

fn run(s: &str) -> Result<String, (usize, String)> {
    assert!(input_ok(s));
    match transpile(s) {
        Ok(doc) => Ok(doc),
        Err(e) => Err((e.line, e.message)),
    }
}

fn fragments(lines: &[&str]) -> Result<Vec<String>, String> {
    let mut tr = Transpiler::new();
    for line in lines {
        tr.feed_line(line)?;
    }
    Ok(tr.fragments().clone())
}

const EMPTY_DOC: &str = "\n        <!DOCTYPE html>\n        <html lang=\"en\">\n        <head>\n            <meta charset=\"UTF-8\">\n            <meta name=\"viewport\" content=\"width=device-width, initial-scale=1.0\">\n            <title>%title%</title>\n            <style>\n            \n            </style>\n        </head>\n        <body>\n\n        </body>\n        </html>\n    ";

#[test]
fn empty_block_gives_empty_content() {
    assert_eq!(run("{\n}").unwrap(), EMPTY_DOC);
}

#[test]
fn empty_block_with_whitespace() {
    assert_eq!(run("   {   \n\t}\t").unwrap(), EMPTY_DOC);
}

#[test]
fn empty_input_gives_empty_content() {
    assert_eq!(run("").unwrap(), EMPTY_DOC);
}

#[test]
fn paragraph_substitutes_constant() {
    let frags = fragments(&["def x hello", "{", "paragraph %x% world", "}"]).unwrap();
    assert_eq!(frags, vec!["<p>hello world</p>".to_string()]);
}

#[test]
fn list_fragments_in_order() {
    let frags = fragments(&["{", "[", "- first item", "- second item", "]", "}"]).unwrap();
    assert_eq!(
        frags,
        vec![
            "<ul>".to_string(),
            "<li>first item</li>".to_string(),
            "<li>second item</li>".to_string(),
            "</ul>".to_string(),
        ]
    );
}

#[test]
fn img_emits_src_alt_and_br() {
    let frags = fragments(&["{", "img a.png|alt text", "}"]).unwrap();
    assert_eq!(frags, vec!["<img src=\"a.png\" alt=\"alt text\">\n<br>".to_string()]);
}

#[test]
fn img_without_pipe_fails() {
    let err = run("{\nimg a.png\n}").unwrap_err();
    assert_eq!(err, (2, "You must specify an image and its alt text".to_string()));
}

#[test]
fn nested_list_fails_at_second_bracket() {
    let err = run("{\n[\n[\n]\n}").unwrap_err();
    assert_eq!(err, (3, "You can't nest lists".to_string()));
}

#[test]
fn body_statement_outside_block_fails() {
    let err = run("paragraph hi\n{\n}").unwrap_err();
    assert_eq!(err, (1, "You can't define the text outside the text area".to_string()));
}

#[test]
fn unknown_theme_fails() {
    let err = run("def theme neon\n{\n}").unwrap_err();
    assert_eq!(err, (3, "Theme not found".to_string()));
}

#[test]
fn two_runs_are_byte_identical() {
    let src = "def title T\ndef theme dark\n{\nheader Hi\n[\n- a\n- b\n]\n}";
    let once = run(src).unwrap();
    let twice = run(src).unwrap();
    assert_eq!(once, twice);
}

#[test]
fn placeholders_absent_when_all_defined() {
    let out = run("def title My Page\ndef theme light\n{\nparagraph body text\n}").unwrap();
    assert!(!out.contains("%title%"));
    assert!(!out.contains("%theme%"));
    assert!(!out.contains("%content%"));
}

#[test]
fn title_constant_fills_title_tag() {
    let out = run("def title My Page\n{\n}").unwrap();
    assert!(out.contains("<title>My Page</title>"));
}

#[test]
fn missing_title_leaves_placeholder() {
    let out = run("{\n}").unwrap();
    assert!(out.contains("<title>%title%</title>"));
}

#[test]
fn light_theme_css_is_spliced() {
    let out = run("def theme light\n{\n}").unwrap();
    assert!(out.contains("background-color: #f2f2f2;"));
}

#[test]
fn dark_theme_css_is_spliced() {
    let out = run("def theme dark\n{\n}").unwrap();
    assert!(out.contains("background-color: #1d1d1d;"));
}

#[test]
fn header_and_link_fragments() {
    let frags = fragments(&["{", "header Top of page", "link x.html|see also", "}"]).unwrap();
    assert_eq!(
        frags,
        vec![
            "<h1>Top of page</h1>".to_string(),
            "<a href=\"x.html\">see also</a>".to_string(),
        ]
    );
}

#[test]
fn link_without_pipe_fails() {
    let err = run("{\nlink x.html\n}").unwrap_err();
    assert_eq!(err, (2, "You must specify a link and its text".to_string()));
}

#[test]
fn def_inside_block_fails() {
    let err = run("{\ndef x y\n}").unwrap_err();
    assert_eq!(err, (2, "You can't define a constant inside the text area".to_string()));
}

#[test]
fn reopening_brackets_fails() {
    let err = run("{\n{\n}").unwrap_err();
    assert_eq!(err, (2, "Syntax error (Brackets already open)".to_string()));
}

#[test]
fn closing_unopened_brackets_fails() {
    let err = run("}").unwrap_err();
    assert_eq!(err, (1, "Syntax error (No brackets to close)".to_string()));
}

#[test]
fn closing_unopened_list_fails() {
    let err = run("{\n]\n}").unwrap_err();
    assert_eq!(err, (2, "You can't close a list that isn't open".to_string()));
}

#[test]
fn unknown_statement_fails() {
    let err = run("{\nblah blah\n}").unwrap_err();
    assert_eq!(err, (2, "Syntax error".to_string()));
}

#[test]
fn unmatched_brackets_at_eof() {
    let err = run("{").unwrap_err();
    assert_eq!(err, (1, "Unmatched brackets at EOF".to_string()));
}

#[test]
fn unmatched_list_at_eof() {
    let err = run("{\n[\n}").unwrap_err();
    assert_eq!(err, (3, "Unmatched list at EOF".to_string()));
}

#[test]
fn later_definition_wins() {
    let frags = fragments(&["def x a", "def x b", "{", "paragraph %x%", "}"]).unwrap();
    assert_eq!(frags, vec!["<p>b</p>".to_string()]);
}

#[test]
fn trailing_colon_stripped_from_name() {
    let frags = fragments(&["def x: hi", "{", "paragraph %x%", "}"]).unwrap();
    assert_eq!(frags, vec!["<p>hi</p>".to_string()]);
}

#[test]
fn substitution_is_single_pass_in_definition_order() {
    let frags = fragments(&["def a %b%", "def b z", "{", "paragraph %a%", "}"]).unwrap();
    assert_eq!(frags, vec!["<p>z</p>".to_string()]);
}

#[test]
fn unknown_token_left_verbatim() {
    let frags = fragments(&["{", "paragraph %nope%", "}"]).unwrap();
    assert_eq!(frags, vec!["<p>%nope%</p>".to_string()]);
}

#[test]
fn constant_inside_img_directive() {
    let frags = fragments(&["def i a.png", "{", "img %i%|pic", "}"]).unwrap();
    assert_eq!(frags, vec!["<img src=\"a.png\" alt=\"pic\">\n<br>".to_string()]);
}

#[test]
fn list_keyword_is_cosmetic() {
    let frags = fragments(&["{", "list anything here", "}"]).unwrap();
    assert!(frags.is_empty());
}

#[test]
fn dash_outside_list_is_syntax_error() {
    let err = run("{\n- item\n}").unwrap_err();
    assert_eq!(err, (2, "Syntax error".to_string()));
}

#[test]
fn sequential_blocks_allowed() {
    let frags = fragments(&["{", "}", "{", "paragraph hi", "}"]).unwrap();
    assert_eq!(frags, vec!["<p>hi</p>".to_string()]);
}

#[test]
fn content_joined_with_newlines() {
    let out = run("{\nparagraph one\nparagraph two\n}").unwrap();
    assert!(out.contains("<body>\n<p>one</p>\n<p>two</p>\n        </body>"));
}

#[test]
fn input_ok_rejects_bare_def() {
    assert!(!input_ok("def"));
    assert!(!input_ok("{\n}\ndef   "));
    assert!(input_ok("def x"));
    assert!(input_ok("def x y z"));
    assert!(input_ok("{\nparagraph defiant\n}"));
}

#[test]
fn def_with_empty_value() {
    let frags = fragments(&["def x", "{", "paragraph a%x%b", "}"]).unwrap();
    assert_eq!(frags, vec!["<p>ab</p>".to_string()]);
}

#[test]
fn substitution_is_not_recursive() {
    let frags = fragments(&["def x %x%", "{", "paragraph %x%", "}"]).unwrap();
    assert_eq!(frags, vec!["<p>%x%</p>".to_string()]);
}

#[test]
fn crlf_line_endings_accepted() {
    assert_eq!(run("{\r\n}\r\n").unwrap(), EMPTY_DOC);
}

#[test]
fn def_value_rejoined_with_single_spaces() {
    let frags = fragments(&["def x   a \t b", "{", "paragraph %x%", "}"]).unwrap();
    assert_eq!(frags, vec!["<p>a b</p>".to_string()]);
}

#[test]
fn img_with_extra_pipe_fails() {
    let err = run("{\nimg a|b|c\n}").unwrap_err();
    assert_eq!(err, (2, "You must specify an image and its alt text".to_string()));
}

#[test]
fn list_bracket_outside_block_fails() {
    let err = run("[").unwrap_err();
    assert_eq!(err, (1, "You can't define the text outside the text area".to_string()));
}

#[test]
fn title_value_is_scanned_by_later_passes() {
    let out = run("def title %theme%\ndef theme light\n{\n}").unwrap();
    assert!(out.contains("<title>body {"));
    assert!(!out.contains("%theme%"));
}

#[test]
fn diagnostic_line_format() {
    let e = TranspileError { line: 12, message: "Syntax error".to_string() };
    assert_eq!(e.diagnostic("file.ez"), "file.ez:12: Syntax error");
}
