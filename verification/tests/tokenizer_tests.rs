use minishell::tokenizer::tokenize;

fn toks(line: &str) -> Vec<String> {
    tokenize(line)
}

#[test]
fn plain_words_split_on_whitespace() {
    assert_eq!(toks("echo hello world"), vec!["echo", "hello", "world"]);
}

#[test]
fn consecutive_whitespace_collapses() {
    assert_eq!(toks("  echo \t hi   "), vec!["echo", "hi"]);
}

#[test]
fn empty_line_has_no_tokens() {
    assert_eq!(toks(""), Vec::<String>::new());
    assert_eq!(toks("   \t "), Vec::<String>::new());
}

#[test]
fn single_quotes_keep_text_literal() {
    // no substitution happens inside single quotes
    assert_eq!(toks("echo 'a $b \\c'"), vec!["echo", "a $b \\c"]);
}

#[test]
fn single_quotes_hide_pipe_and_whitespace() {
    assert_eq!(toks("'a | b'"), vec!["a | b"]);
}

#[test]
fn double_quote_escapes_round_trip() {
    // \$ and \" unescape; \d keeps its backslash since d is not escapable
    assert_eq!(toks("\"a\\$b\\\"c\\d\""), vec!["a$b\"c\\d"]);
}

#[test]
fn double_quote_escapes_backslash_and_backtick() {
    assert_eq!(toks("\"x\\\\y\\`z\""), vec!["x\\y`z"]);
}

#[test]
fn double_quotes_keep_whitespace() {
    assert_eq!(toks("\"hello   world\""), vec!["hello   world"]);
}

#[test]
fn backslash_outside_quotes_takes_next_literally() {
    assert_eq!(toks("a\\ b"), vec!["a b"]);
    assert_eq!(toks("\\|"), vec!["|"]);
    assert_eq!(toks("a\\'b"), vec!["a'b"]);
}

#[test]
fn unquoted_pipe_is_its_own_token() {
    assert_eq!(toks("a|b"), vec!["a", "|", "b"]);
    assert_eq!(toks("yes | head -n 3"), vec!["yes", "|", "head", "-n", "3"]);
}

#[test]
fn quoted_pipe_is_not_a_separator() {
    assert_eq!(toks("echo \"a|b\""), vec!["echo", "a|b"]);
}

#[test]
fn trailing_backslash_is_kept_literally() {
    assert_eq!(toks("abc\\"), vec!["abc\\"]);
}

#[test]
fn unterminated_quote_is_accepted_silently() {
    assert_eq!(toks("'abc def"), vec!["abc def"]);
    assert_eq!(toks("\"abc def"), vec!["abc def"]);
}

#[test]
fn adjacent_quoted_pieces_join_into_one_token() {
    assert_eq!(toks("a'b c'd"), vec!["ab cd"]);
    assert_eq!(toks("\"a\"'b'"), vec!["ab"]);
}

#[test]
fn multibyte_text_tokenizes_by_character() {
    assert_eq!(toks("héllo wörld"), vec!["héllo", "wörld"]);
    assert_eq!(toks("'ét é'"), vec!["ét é"]);
}

#[test]
fn empty_quotes_emit_no_token() {
    assert_eq!(toks("''"), Vec::<String>::new());
    assert_eq!(toks("echo ''"), vec!["echo"]);
}
