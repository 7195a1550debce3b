use minfile::minify_markup_language::minify;

#[test]
fn test_basic_xml() {
    // Simulate file content.
    let content: &str = "<xml> <element/></xml>";

    // Run function for the content.
    let result: String = minify(content);

    // Set desired output.
    let expected_output: &str = "<xml><element/></xml>";

    // Assert result.
    assert_eq!(result, expected_output);
}

#[test]
fn test_basic_html() {
    // Simulate file content.
    let content: &str = "
            <html>
                <head>
                    <style>
                        <meta charset=\"UTF-8\">
                    </style>
                </head>
                <body/>
            </html>
        ";

    // Run function for the content.
    let result: String = minify(content);

    // Set desired output.
    let expected_output: &str = "<html><head><style><meta charset=\"UTF-8\"></style></head><body/></html>";

    // Assert result.
    assert_eq!(result, expected_output);
}

#[test]
fn test_complex_xml() {
    // Simulate file content.
    let content: &str = "
            <?xml version=\"1.0\"        encoding=\"UTF-8\" ?>
            <!---An XML comment---->

            <comments>
                <comment>
                    <description>The best comment</description>
                        </comment>
                
                <comment><description>A comment</description></comment>
                    <comment>
                            <description/>
                </comment>
            </comments>
        ";

    // Run function for the content.
    let result: String = minify(content);

    // Set desired output.
    let expected_output: &str = "<?xml version=\"1.0\" encoding=\"UTF-8\"?><!---An XML comment----><comments><comment><description>The best comment</description></comment><comment><description>A comment</description></comment><comment><description/></comment></comments>";

    // Assert result.
    assert_eq!(result, expected_output);
}

#[test]
fn test_complex_html() {
    // Simulate file content.
    let content: &str = "  <html>

            <head>
                <style>a { pointer-events: none; }</style>
                </head>
                    <body>
                        <div>    <a href=\"www.as.com\" style=\"background-color: red;\" id=\"link-1\" /></div>
                            </body>
                </head>
            </html>
        ";

    // Run function for the content.
    let result: String = minify(content);

    // Set desired output.
    let expected_output: &str = "<html><head><style>a{ pointer-events: none;}</style></head><body><div><a href=\"www.as.com\" style=\"background-color: red;\" id=\"link-1\"/></div></body></head></html>";

    // Assert result.
    assert_eq!(result, expected_output);
}

#[test]
fn test_empty_input() {
    assert_eq!(minify(""), "");
}

#[test]
fn test_whitespace_only_input() {
    assert_eq!(minify(" \t\r\n   "), "");
}

// A second minification finds nothing further to remove.
#[test]
fn test_idempotent() {
    let content: &str = "  <html>\n    <p>some  text </p>\n  </html>\n";
    let once: String = minify(content);
    let twice: String = minify(&once);
    assert_eq!(twice, once);
}

// The output is never longer than the input.
#[test]
fn test_length_monotonic() {
    let content: &str = "<a> <b>text  here</b> </a>";
    let result: String = minify(content);
    assert!(result.len() <= content.len());
}

// The surviving characters form a subsequence of the input: nothing is
// inserted and nothing is reordered.
#[test]
fn test_output_is_subsequence_of_input() {
    let content: &str = "<ul>\n  <li>one thing</li>\n  <li>another thing</li>\n</ul>\n";
    let result: String = minify(content);
    let input_chars: Vec<char> = content.chars().collect();
    let mut pos: usize = 0;
    for c in result.chars() {
        while pos < input_chars.len() && input_chars[pos] != c {
            pos += 1;
        }
        assert!(pos < input_chars.len(), "character not found in order in the input");
        pos += 1;
    }
}

// Whitespace between a `>` and a following `<` collapses to nothing.
#[test]
fn test_tag_adjacency_collapse() {
    assert_eq!(minify("<a>\n\t <b>"), "<a><b>");
}

// A single space between two alphabetic characters is preserved.
#[test]
fn test_word_boundary_preserved() {
    let content: &str = "<description>The best comment</description>";
    assert_eq!(minify(content), content);
}

// The space before a self-closing tag's `/>` is removed.
#[test]
fn test_self_closing_tag_space_removed() {
    assert_eq!(minify("<element   />"), "<element/>");
}

// A multi-line, indented document collapses to a single line.
#[test]
fn test_indented_document_collapse() {
    let content: &str = "<html>\n    <head><style><meta charset=\"UTF-8\"></style></head>\n    <body/>\n</html>";
    let expected_output: &str = "<html><head><style><meta charset=\"UTF-8\"></style></head><body/></html>";
    assert_eq!(minify(content), expected_output);
}

// Spacing inside quoted attribute values is preserved verbatim.
#[test]
fn test_attribute_value_whitespace_preserved() {
    let content: &str = "<a href=\"www.as.com\" style=\"background-color: red;\" id=\"link-1\" />";
    let expected_output: &str = "<a href=\"www.as.com\" style=\"background-color: red;\" id=\"link-1\"/>";
    assert_eq!(minify(content), expected_output);
}

// A run of whitespace before a word collapses to a single kept
// character; trailing whitespace disappears entirely.
#[test]
fn test_run_collapse_and_edges() {
    assert_eq!(minify("a  b"), "a b");
    assert_eq!(minify("a "), "a");
    assert_eq!(minify(" a"), " a");
}

// Tabs and carriage returns are whitespace too.
#[test]
fn test_tab_and_carriage_return() {
    assert_eq!(minify("a\t\tb"), "a\tb");
    assert_eq!(minify("a\r\nb"), "a\nb");
}

// Digits and underscores are word characters: whitespace before them
// sits at a word boundary and survives.
#[test]
fn test_digits_and_underscore_are_word_chars() {
    assert_eq!(minify("x_1 2"), "x_1 2");
    assert_eq!(minify("value: 7"), "value: 7");
    assert_eq!(minify("end _"), "end _");
}
