use fragments::{Generator, LexToken, ParseError, RenderError, Shell, Template};

struct Join {
    sep: char,
}

impl Generator for Join {
    fn generate(&self, args: &Vec<String>) -> Result<String, RenderError> {
        let mut out = String::new();
        let mut first = true;
        for a in args {
            if !first {
                out.push(self.sep);
            }
            first = false;
            out.push_str(a);
        }
        Ok(out)
    }
}

struct Failing;

impl Generator for Failing {
    fn generate(&self, _args: &Vec<String>) -> Result<String, RenderError> {
        Err(RenderError { message: "refused".to_owned() })
    }
}

fn from_str<G: Generator>(s: &str) -> Template<'static, G> {
    Template::from_chars(&s.chars().collect()).unwrap()
}

#[test]
fn literal_round_trip() {
    let text = "just some ordinary text, with ] and : and ? and / in it.";
    let template: Template<Join> = from_str(text);
    assert_eq!(template.to_string(), text.to_owned());
}

#[test]
fn empty_template_renders_empty() {
    let template: Template<Join> = from_str("");
    assert_eq!(template.to_string(), "");
}

#[test]
fn escaped_marker_is_literal() {
    let template: Template<Join> = from_str("\\[[:x]]");
    assert_eq!(template.get_tokens().len(), 1);
    assert_eq!(
        template.get_tokens()[0],
        fragments::Token::Literal("[[:x]]".to_owned())
    );
    assert_eq!(template.to_string(), "[[:x]]");
}

#[test]
fn placeholder_default_empty() {
    let template: Template<Join> = from_str("[[:name]]");
    assert_eq!(template.to_string(), "");
}

#[test]
fn conditional_default_false() {
    let mut template: Template<Join> = from_str("[[?c]]X[[/]]");
    assert_eq!(template.to_string(), "");
    template.set("c".to_owned(), true);
    assert_eq!(template.to_string(), "X");
}

#[test]
fn content_conditional_complement() {
    let mut template: Template<Join> = from_str("[[?:n]]A[[/]][[?!:n]]B[[/]]");
    assert_eq!(template.to_string(), "B");
    template.insert("n".to_owned(), 1u64);
    assert_eq!(template.to_string(), "A");
}

#[test]
fn overlay_non_mutation() {
    let mut template: Template<Join> = from_str("Hello, [[:name]]!");
    template.insert("name".to_owned(), "Peter");
    let mut shell = template.wrap();
    shell.insert("name".to_owned(), "Olivia");
    assert_eq!(shell.to_string(), "Hello, Olivia!");
    assert_eq!(template.to_string(), "Hello, Peter!");
}

#[test]
fn stacked_overlays() {
    let mut template: Template<Join> = from_str("[[:a]]-[[:b]]");
    template.insert("a".to_owned(), "base");
    template.insert("b".to_owned(), "base");
    let mut inner = template.wrap();
    inner.insert("a".to_owned(), "inner");
    let mut outer = inner.wrap();
    outer.insert("b".to_owned(), "outer");
    assert_eq!(outer.to_string(), "inner-outer");
    assert_eq!(inner.to_string(), "inner-base");
    assert_eq!(template.to_string(), "base-base");
}

#[test]
fn negative_int_content() {
    let mut template: Template<Join> = from_str("[[:v]]");
    template.insert("v".to_owned(), -42i64);
    assert_eq!(template.to_string(), "-42");
    template.insert("v".to_owned(), i64::MIN);
    assert_eq!(template.to_string(), "-9223372036854775808");
    template.insert("v".to_owned(), u64::MAX);
    assert_eq!(template.to_string(), "18446744073709551615");
}

#[test]
fn parse_error_carries_marker() {
    let r: Result<Template<Join>, ParseError> = Template::from_chars(&"a[[x]]".chars().collect());
    match r {
        Ok(_) => panic!("the unknown marker was accepted"),
        Err(e) => assert_eq!(e.marker, LexToken::Character('x')),
    }
}

#[test]
fn parse_error_message_names_marker() {
    let r: Result<Template<Join>, ParseError> = Template::from_chars(&"[[!]]".chars().collect());
    match r {
        Ok(_) => panic!("the unknown marker was accepted"),
        Err(e) => {
            assert_eq!(e.marker, LexToken::Exclamation);
            assert_eq!(e.message(), "parse error: unknown token type: '!'");
        }
    }
}

#[test]
fn lone_begin_degrades_to_literal() {
    let template: Template<Join> = from_str("tail[[");
    assert_eq!(template.to_string(), "tail[[");
}

#[test]
fn block_end_discards_trailing_text() {
    let template: Template<Join> = from_str("a[[/ anything here ]]b");
    assert_eq!(template.to_string(), "a");
}

#[test]
fn generator_empty_quoted_argument() {
    let mut template: Template<Join> = from_str("[[+\"g\" \"\" x]]");
    template.insert_generator("g".to_owned(), Join { sep: ':' });
    assert_eq!(template.to_string(), ":x");
}

#[test]
fn end_closes_argument_list() {
    let mut template: Template<Join> = from_str("[[+g ]]x");
    template.insert_generator("g".to_owned(), Join { sep: ':' });
    assert_eq!(template.to_string(), "x");
}

#[test]
fn quoted_last_argument_keeps_following_text() {
    let mut template: Template<Join> = from_str("[[+\"g\" \"a\"]]tail");
    template.insert_generator("g".to_owned(), Join { sep: ':' });
    assert_eq!(template.to_string(), "atail");
}

#[test]
fn generator_zero_arguments() {
    let mut template: Template<Join> = from_str("[[+g]]");
    template.insert_generator("g".to_owned(), Join { sep: ':' });
    assert_eq!(template.to_string(), "");
}

#[test]
fn generator_failure_surfaces() {
    let mut template: Template<Failing> = from_str("before [[+g a b]]");
    template.insert_generator("g".to_owned(), Failing);
    let r = template.render();
    match r {
        Ok(_) => panic!("the failing generator was ignored"),
        Err(e) => assert_eq!(e.message, "refused"),
    }
}

#[test]
fn generator_output_lands_in_place() {
    let mut template: Template<Join> = from_str("L[[+g x y]]R");
    template.insert_generator("g".to_owned(), Join { sep: ':' });
    assert_eq!(template.to_string(), "Lx:yR");
}

#[test]
fn unbound_generator_renders_empty() {
    let template: Template<Join> = from_str("a[[+g x y]]b");
    assert_eq!(template.to_string(), "ab");
}

#[test]
fn shell_new_delegates() {
    let mut template: Template<Join> = from_str("[[:v]][[?c]]!?[[/]]");
    template.insert("v".to_owned(), "x");
    template.set("c".to_owned(), true);
    let shell = Shell::new(&template);
    assert_eq!(shell.to_string(), "x!?");
}
