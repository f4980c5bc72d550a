use fragments::{Generator, RenderError, Template, Token};

struct Echo {
    sep: char,
}

impl Generator for Echo {
    fn generate(&self, args: &Vec<String>) -> Result<String, RenderError> {
        let mut out = String::new();
        let mut first = true;
        for a in args {
            if !first {
                out.push(self.sep);
            }
            first = false;
            out.push_str(a);
        }
        Ok(out)
    }
}

fn echo() -> Echo {
    Echo { sep: ':' }
}

fn echo2() -> Echo {
    Echo { sep: '_' }
}

static PETER: &'static str = "Peter";
static NICE: &'static str = "nice";

fn monitored_from_str(s: &str) -> Template<'static, Echo> {
    match Template::from_chars(&s.chars().collect()) {
        Ok(template) => template,
        Err(e) => panic!("{:?}", e),
    }
}

#[test]
fn basic_tokens() {
    let template: Template<Echo> =
        "Hello, [[:name]]! This is a [[:something]] template.".parse().unwrap();
    assert_eq!(template.get_tokens()[0], Token::Literal("Hello, ".to_owned()));
    assert_eq!(template.get_tokens()[1], Token::Placeholder("name".to_owned()));
    assert_eq!(template.get_tokens()[2], Token::Literal("! This is a ".to_owned()));
    assert_eq!(template.get_tokens()[3], Token::Placeholder("something".to_owned()));
    assert_eq!(template.get_tokens()[4], Token::Literal(" template.".to_owned()));
}

#[test]
fn strange_tokens() {
    let r: Result<Template<Echo>, fragments::ParseError> =
        "Hello, [[[:name]]]! This is a [[[[:something]] template.".parse();
    assert!(r.is_err());
}

#[test]
fn escaped_tokens() {
    let template = monitored_from_str(
        "Hello, [[:name]]! Write placeholders like \\[[:this]] and escape them like \\\\\\[[:this]]",
    );
    assert_eq!(template.get_tokens()[0], Token::Literal("Hello, ".to_owned()));
    assert_eq!(template.get_tokens()[1], Token::Placeholder("name".to_owned()));
    assert_eq!(
        template.get_tokens()[2],
        Token::Literal(
            "! Write placeholders like [[:this]] and escape them like \\[[:this]]".to_owned()
        )
    );
}

#[test]
fn replacement() {
    let mut template = monitored_from_str("Hello, [[:name]]! This is a [[:something]] template.");
    template.insert("name".to_owned(), PETER);
    template.insert("something".to_owned(), NICE);
    assert_eq!(template.to_string(), "Hello, Peter! This is a nice template.".to_owned());
}

#[test]
fn templates_in_templates() {
    let mut template1 = monitored_from_str("Hello, [[:name]]! This is a [[:something]] template.");
    let mut template2 = monitored_from_str("really [[:something]]");
    template1.insert("name".to_owned(), PETER);
    template2.insert("something".to_owned(), NICE);

    template1.insert("something".to_owned(), template2);

    assert_eq!(template1.to_string(), "Hello, Peter! This is a really nice template.".to_owned());
}

#[test]
fn conditional() {
    let mut template =
        monitored_from_str("Hello, [[:name]]![[?condition]] The condition is true.[[/condition]]");
    template.insert("name".to_owned(), PETER);
    assert_eq!(template.to_string(), "Hello, Peter!".to_owned());
    template.set("condition".to_owned(), true);
    assert_eq!(template.to_string(), "Hello, Peter! The condition is true.".to_owned());
}

#[test]
fn conditional_switch() {
    let mut template = monitored_from_str(
        "Hello, [[:name]]! The condition is [[?condition]]true[[/condition]][[?!condition]]false[[/condition]].",
    );
    template.insert("name".to_owned(), PETER);
    assert_eq!(template.to_string(), "Hello, Peter! The condition is false.".to_owned());
    template.set("condition".to_owned(), true);
    assert_eq!(template.to_string(), "Hello, Peter! The condition is true.".to_owned());
}

#[test]
fn content_conditional() {
    let mut template = monitored_from_str(
        "Hello[[?:name]], [[:name]][[/name]]![[?!:name]] I don't know you.[[/!name]]",
    );
    assert_eq!(template.to_string(), "Hello! I don't know you.".to_owned());
    template.insert("name".to_owned(), PETER);
    assert_eq!(template.to_string(), "Hello, Peter!".to_owned());
}

#[test]
fn generator() {
    let mut template = monitored_from_str("[[+\"say hello\" hello Peter    \"how are\" you?]]");

    template.insert_generator("say hello".to_owned(), echo());
    assert_eq!(template.to_string(), "hello:Peter:how are:you?".to_owned());

    template.insert_generator("say hello".to_owned(), echo());
    assert_eq!(template.to_string(), "hello:Peter:how are:you?".to_owned());
}

#[test]
fn test_insert() {
    let mut template = monitored_from_str("[[:v]]");
    template.insert("v".to_owned(), 1u8);
    assert_eq!(template.to_string(), 1u8.to_string());
    template.insert("v".to_owned(), 1u16);
    assert_eq!(template.to_string(), 1u16.to_string());
    template.insert("v".to_owned(), 1u32);
    assert_eq!(template.to_string(), 1u32.to_string());
    template.insert("v".to_owned(), 1u64);
    assert_eq!(template.to_string(), 1u64.to_string());
    template.insert("v".to_owned(), 1i8);
    assert_eq!(template.to_string(), 1i8.to_string());
    template.insert("v".to_owned(), 1i16);
    assert_eq!(template.to_string(), 1i16.to_string());
    template.insert("v".to_owned(), 1i32);
    assert_eq!(template.to_string(), 1i32.to_string());
    template.insert("v".to_owned(), 1i64);
    assert_eq!(template.to_string(), 1i64.to_string());
    template.insert("v".to_owned(), 'A');
    assert_eq!(template.to_string(), 'A'.to_string());
    template.insert("v".to_owned(), true);
    assert_eq!(template.to_string(), true.to_string());
    template.insert("v".to_owned(), false);
    assert_eq!(template.to_string(), false.to_string());
}

#[test]
fn wrap_identical() {
    let mut template = monitored_from_str("Hello, [[:name]]! This is a [[:something]] template.");
    template.insert("name".to_owned(), PETER);
    template.insert("something".to_owned(), NICE);
    let shell = template.wrap();
    assert_eq!(template.to_string(), shell.to_string());
}

#[test]
fn wrap_set() {
    let mut template = monitored_from_str("Hello, [[:name]]! This is a [[:something]] template.");
    template.insert("name".to_owned(), PETER);
    template.insert("something".to_owned(), NICE);
    let mut shell = template.wrap();
    shell.insert("name".to_owned(), "Olivia");
    assert_eq!(shell.to_string(), "Hello, Olivia! This is a nice template.".to_owned());
}

#[test]
fn wrap_unset() {
    let mut template = monitored_from_str("Hello, [[:name]]! This is a [[:something]] template.");
    template.insert("name".to_owned(), PETER);
    template.insert("something".to_owned(), NICE);
    let mut shell = template.wrap();
    shell.unset("name".to_owned());
    assert_eq!(shell.to_string(), "Hello, ! This is a nice template.".to_owned());
}

#[test]
fn wrap_condition() {
    let mut template =
        monitored_from_str("Hello, [[:name]]![[?condition]] The condition is true.[[/condition]]");
    template.insert("name".to_owned(), PETER);
    template.set("condition".to_owned(), true);
    let mut shell = template.wrap();
    shell.set("condition".to_owned(), false);
    assert_eq!(shell.to_string(), "Hello, Peter!".to_owned());
}

#[test]
fn wrap_set_content_condition() {
    let template = monitored_from_str(
        "Hello[[?:name]], [[:name]][[/name]]![[?!:name]] I don't know you.[[/!name]]",
    );
    let mut shell = template.wrap();
    shell.insert("name".to_owned(), PETER);
    assert_eq!(shell.to_string(), "Hello, Peter!".to_owned());
}

#[test]
fn wrap_unset_content_condition() {
    let mut template = monitored_from_str(
        "Hello[[?:name]], [[:name]][[/name]]![[?!:name]] I don't know you.[[/!name]]",
    );
    template.insert("name".to_owned(), PETER);
    let mut shell = template.wrap();
    shell.unset("name".to_owned());
    assert_eq!(shell.to_string(), "Hello! I don't know you.".to_owned());
}

#[test]
fn wrap_set_generator() {
    let mut template = monitored_from_str("[[+\"say hello\" hello Peter    \"how are\" you?]]");
    template.insert_generator("say hello".to_owned(), echo());
    let mut shell = template.wrap();
    shell.insert_generator("say hello".to_owned(), echo2());

    assert_eq!(shell.to_string(), "hello_Peter_how are_you?".to_owned());
}

#[test]
fn wrap_unset_generator() {
    let mut template = monitored_from_str("[[+\"say hello\" hello Peter    \"how are\" you?]]");
    template.insert_generator("say hello".to_owned(), echo());
    let mut shell = template.wrap();
    shell.unset_generator("say hello".to_owned());

    assert_eq!(shell.to_string(), "".to_owned());
}

#[test]
fn shells_in_templates() {
    let template2 = monitored_from_str("really [[:something]]");
    let mut template1 = monitored_from_str("Hello, [[:name]]! This is a [[:something]] template.");
    let mut shell = template2.wrap();
    template1.insert("name".to_owned(), PETER);
    shell.insert("something".to_owned(), NICE);

    template1.insert("something".to_owned(), shell);

    assert_eq!(template1.to_string(), "Hello, Peter! This is a really nice template.".to_owned());
}
