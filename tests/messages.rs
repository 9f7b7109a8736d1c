use local_fmt::args::CreateMessageError;
use local_fmt::message::{CheckConstMessageArg, ConstMessage, ConstMessageError, MessageFormat};
use local_fmt::named::{resolve_refs, resolve_texts};
use local_fmt::number::{const_i128_to_str, const_u128_to_str};
use local_fmt::owned::{AllocMessage, AllocMessageFormat};
use local_fmt::refer::{RefMessage, RefMessageFormat};
use local_fmt::template::{parse_template, Token};

#[test]
fn from_str_normal() {
    let text = "Hello {0}";
    let message = AllocMessage::<1>::from_str(text).unwrap();
    let text = message.format(&["World!"]);
    assert_eq!(text, "Hello World!");
}

#[test]
fn failed() {
    // An index at or above the argument count is reported before any gap.
    let text = "Hello {1}";
    let message = AllocMessage::<1>::from_str(text).unwrap_err();
    assert_eq!(message, CreateMessageError::InvalidNumber { number: 1, n: 1 });
}

#[test]
fn with_backslash() {
    let text = "Hey \\{1} {1} {0}";
    let message = AllocMessage::<2>::from_str(text).unwrap();
    let text = message.format(&["World!", "Rust!"]);
    assert_eq!(text, "Hey {1} Rust! World!");
}

#[test]
fn gen_alloc_message_arg_1() {
    let result = AllocMessage::<1>::from_str("Hello! {0}").unwrap();
    let text = result.format(&["World!"]);
    assert_eq!(text, "Hello! World!");
}

fn alloc_with_names<const N: usize>(template: &str, names: &[(&str, &str)]) -> AllocMessage<N> {
    let tokens = parse_template(template).unwrap();
    let formats = resolve_texts(&tokens, names).unwrap();
    let formats = formats
        .into_iter()
        .map(|f| match f {
            MessageFormat::Text(s) => AllocMessageFormat::AllocText(s),
            MessageFormat::StaticText(s) => AllocMessageFormat::AllocText(s.to_string()),
            MessageFormat::Arg(n) => AllocMessageFormat::Placeholder(n),
        })
        .collect();
    AllocMessage::<N>::new(formats).unwrap()
}

#[test]
fn gen_alloc_message_arg_2() {
    let hey = String::from("hey");
    let result: AllocMessage<2> = alloc_with_names("{hey} {0} World! {1}", &[("hey", &hey)]);
    let text = result.format(&["Beautiful", "Rust!"]);
    assert_eq!(text, "hey Beautiful World! Rust!");
}

fn static_text(template: &str, names: &[(&str, RefMessageFormat)], args: &[&str]) -> String {
    let tokens = parse_template(template).unwrap();
    let formats = resolve_refs(&tokens, names).unwrap();
    match args.len() {
        1 => RefMessage::<1>::new(&formats).unwrap().format(&[args[0]]),
        2 => RefMessage::<2>::new(&formats).unwrap().format(&[args[0], args[1]]),
        _ => panic!("unexpected argument count"),
    }
}

#[test]
fn gen_const_message_arg_1() {
    let text = static_text("Hello! {0}", &[], &["World!"]);
    assert_eq!(text, "Hello! World!");
}

#[test]
fn gen_const_message_arg_2() {
    const HELLO: &str = "Hello";
    let names = [("HELLO", RefMessageFormat::RefText(HELLO))];
    let text = static_text("{HELLO} {0} World! {1}", &names, &["Beautiful", "Rust!"]);
    assert_eq!(text, "Hello Beautiful World! Rust!");
}

#[test]
fn gen_const_message_duplicate_arg() {
    const HELLO: &str = "Hello";
    let names = [("HELLO", RefMessageFormat::RefText(HELLO))];
    let text = static_text("{HELLO} {0} World! {0}", &names, &["Beautiful"]);
    assert_eq!(text, "Hello Beautiful World! Beautiful");
}

#[test]
fn gen_static_message_arg_1() {
    let text = static_text("Hello! {0}", &[], &["World!"]);
    assert_eq!(text, "Hello! World!");
}

#[test]
fn gen_static_message_arg_2() {
    const HELLO: &str = "Hello";
    let names = [("HELLO", RefMessageFormat::RefText(HELLO))];
    let text = static_text("{HELLO} {0} World! {1}", &names, &["Beautiful", "Rust!"]);
    assert_eq!(text, "Hello Beautiful World! Rust!");
}

#[test]
fn gen_static_message_duplicate_arg() {
    const HELLO: &str = "Hello";
    let names = [("HELLO", RefMessageFormat::RefText(HELLO))];
    let text = static_text("{HELLO} {0} World! {0}", &names, &["Beautiful"]);
    assert_eq!(text, "Hello Beautiful World! Beautiful");
}

#[test]
fn with_u_number() {
    const NUM: usize = 123456789;
    let names = [("u:NUM", RefMessageFormat::UNumber(NUM as u128))];
    let text = static_text("Hello! {0} {u:NUM}", &names, &["World!"]);
    assert_eq!(text, "Hello! World! 123456789");
}

#[test]
fn with_i_number() {
    const NUM: i32 = -123456789;
    let names = [("i:NUM", RefMessageFormat::INumber(NUM as i128))];
    let text = static_text("Hello! {0} {i:NUM}", &names, &["World!"]);
    assert_eq!(text, "Hello! World! -123456789");
}

fn const_message(template: &str, names: &[(&str, &str)]) -> Vec<MessageFormat> {
    let tokens = parse_template(template).unwrap();
    resolve_texts(&tokens, names).unwrap()
}

#[test]
fn gen_message_test_unchecked() {
    let _: ConstMessage<3> = ConstMessage::Vec(const_message("Hello! {0} {2}", &[]));
}

#[test]
fn test_unchecked_no_error() {
    let message: ConstMessage<3> = ConstMessage::Vec(const_message("Hello! {0} {2}", &[]));
    let text = message.format(&["World!", "Rust!", "Beautiful"]);
    assert_eq!(text, "Hello! World! Beautiful");
}

#[test]
fn test_1() {
    let result = ConstMessage::<1>::from_str("Hello! {0}").unwrap();
    let text = result.format(&["World!"]);
    assert_eq!(text, "Hello! World!");
}

#[test]
fn test_2() {
    let hey = String::from("hey");
    let result: ConstMessage<2> =
        ConstMessage::new(const_message("{hey} {0} World! {1}", &[("hey", &hey)])).unwrap();
    let text = result.format(&["Beautiful", "Rust!"]);
    assert_eq!(text, "hey Beautiful World! Rust!");
}

#[test]
fn gen_const_message_test_unchecked() {
    let _: ConstMessage<1> = ConstMessage::Vec(vec![
        MessageFormat::StaticText("Hello! "),
        MessageFormat::Arg(0),
        MessageFormat::Arg(99),
    ]);
}

#[test]
fn test_1_success() {
    let _: ConstMessage<1> =
        ConstMessage::new(vec![MessageFormat::StaticText("Hello! "), MessageFormat::Arg(0)]).unwrap();
}

#[test]
#[should_panic]
fn test_2_failed() {
    let _: ConstMessage<2> = ConstMessage::new(vec![
        MessageFormat::StaticText("Hello! "),
        MessageFormat::Arg(0),
        MessageFormat::StaticText(" World!"),
    ])
    .unwrap();
}

#[test]
fn round_trip_interleaves_arguments() {
    let message = AllocMessage::<3>::from_str("a{2}b{0}c{1}d").unwrap();
    assert_eq!(message.format(&["x", "y", "z"]), "azbxcyd");
    let message = ConstMessage::<2>::from_str("[{1}|{0}]").unwrap();
    assert_eq!(message.format(&["p", "q"]), "[q|p]");
}

#[test]
fn escape_gives_literal_brace() {
    let tokens = parse_template("a\\{b").unwrap();
    assert_eq!(tokens, vec![Token::Text("a{b".to_string())]);
    let message = AllocMessage::<0>::from_str("a\\{b").unwrap();
    assert_eq!(message.format(&[]), "a{b");
    let message = AllocMessage::<0>::from_str("a\\b\\").unwrap();
    assert_eq!(message.format(&[]), "a\\b\\");
}

#[test]
fn gap_is_missing_index() {
    let formats = vec![AllocMessageFormat::Placeholder(0), AllocMessageFormat::Placeholder(2)];
    assert_eq!(
        AllocMessage::<3>::new(formats.clone()).unwrap_err(),
        CreateMessageError::WithoutNumber { number: 1, n: 3 }
    );
    assert_eq!(
        AllocMessage::<5>::new(formats).unwrap_err(),
        CreateMessageError::WithoutNumber { number: 1, n: 5 }
    );
}

#[test]
fn index_at_count_is_invalid() {
    let formats = vec![AllocMessageFormat::Placeholder(0), AllocMessageFormat::Placeholder(2)];
    assert_eq!(
        AllocMessage::<2>::new(formats).unwrap_err(),
        CreateMessageError::InvalidNumber { number: 2, n: 2 }
    );
    assert_eq!(
        ConstMessage::<1>::const_check(&[MessageFormat::Arg(1)]).unwrap_err(),
        ConstMessageError::InvalidNumber { number: 1, n: 1 }
    );
    assert_eq!(
        ConstMessage::<2>::const_check(&[MessageFormat::Arg(1)]).unwrap_err(),
        ConstMessageError::WithoutNumber { number: 0, n: 2 }
    );
}

#[test]
fn end_to_end_examples() {
    let m = AllocMessage::<1>::from_str("Hello, {0}!").unwrap();
    assert_eq!(m.format(&["World"]), "Hello, World!");
    let m = AllocMessage::<1>::from_str("{0} World! {0}").unwrap();
    assert_eq!(m.format(&["Beautiful"]), "Beautiful World! Beautiful");
    assert_eq!(
        AllocMessage::<1>::from_str("Hello {1}").unwrap_err(),
        CreateMessageError::InvalidNumber { number: 1, n: 1 }
    );
}

#[test]
fn empty_placeholders_are_errors() {
    assert_eq!(AllocMessage::<0>::from_str("a{}b").unwrap_err(), CreateMessageError::EmptyPlaceholder);
    assert_eq!(AllocMessage::<1>::from_str("a{0").unwrap_err(), CreateMessageError::EmptyPlaceholder);
    assert_eq!(AllocMessage::<0>::from_str("{name}").unwrap_err(), CreateMessageError::EmptyPlaceholder);
    assert_eq!(
        AllocMessage::<1>::from_str("{99999999999999999999999}").unwrap_err(),
        CreateMessageError::InvalidNumber { number: usize::MAX, n: 1 }
    );
}

#[test]
fn named_reference_without_value() {
    let tokens = parse_template("{x} {0}").unwrap();
    assert_eq!(resolve_texts(&tokens, &[]).unwrap_err(), CreateMessageError::EmptyPlaceholder);
}

#[test]
fn messages_report_their_segments() {
    let m = AllocMessage::<1>::from_str("Hi {0}!").unwrap();
    assert_eq!(m.len(), 3);
    assert!(!m.is_empty());
    assert_eq!(m.formats()[1], AllocMessageFormat::Placeholder(0));
    let formats = [RefMessageFormat::RefText("n="), RefMessageFormat::Placeholder(0)];
    let r = RefMessage::<1>::new_panic(&formats);
    assert_eq!(r.len(), 2);
    assert_eq!(r.formats().len(), 2);
    assert_eq!(ConstMessage::<2>::Vec(vec![]).args_len(), 2);
}

#[test]
fn numbers_in_decimal() {
    let b = const_u128_to_str(1234567890);
    assert_eq!(b.buffer(), b"1234567890");
    assert_eq!(const_u128_to_str(0).buffer(), b"0");
    assert_eq!(const_u128_to_str(u128::MAX).buffer(), u128::MAX.to_string().as_bytes());
    assert_eq!(const_i128_to_str(-1234567890).buffer(), b"-1234567890");
    assert_eq!(const_i128_to_str(i128::MIN).buffer(), i128::MIN.to_string().as_bytes());
    let formats = [RefMessageFormat::UNumber(7), RefMessageFormat::INumber(-42)];
    assert_eq!(RefMessage::<0>::new(&formats).unwrap().format(&[]), "7-42");
}

#[test]
fn error_messages() {
    assert_eq!(
        CreateMessageError::InvalidNumber { number: 3, n: 2 }.message(),
        "Invalid argument number: 3 is out of the allowed range (0 <= number < 2)."
    );
    assert_eq!(
        CreateMessageError::WithoutNumber { number: 0, n: 10 }.message(),
        "Missing argument number: 0 is not found within the allowed range (0 <= number < 10)."
    );
    assert!(CreateMessageError::EmptyPlaceholder.message().starts_with("Empty placeholder found"));
}

#[test]
fn arity_check_keeps_segments() {
    let m = ConstMessage::<1>::from_str("Hi {0}").unwrap();
    let same: ConstMessage<1> = CheckConstMessageArg::<1>::check(m.clone());
    assert_eq!(same, m);
}

#[test]
fn static_message_over_static_segments() {
    static FORMATS: [MessageFormat; 2] = [MessageFormat::Arg(0), MessageFormat::StaticText(" world!")];
    let message = ConstMessage::<1>::new_static(&FORMATS);
    assert_eq!(message.format(&["Hello"]), "Hello world!");
    assert_eq!(message.formats().len(), 2);
}

#[test]
fn fixed_buffer_formatting() {
    let formats = [
        RefMessageFormat::RefText("Hello! "),
        RefMessageFormat::Placeholder(0),
        RefMessageFormat::RefText(" World! "),
        RefMessageFormat::Placeholder(1),
        RefMessageFormat::RefText("!"),
    ];
    let message = RefMessage::<2>::new_panic(&formats);
    let buf = message.const_format::<32>(&[b"Beautiful", b"Rust!"]);
    assert_eq!(buf.buffer(), b"Hello! Beautiful World! Rust!!");
    let numbers = [RefMessageFormat::UNumber(1234567890), RefMessageFormat::INumber(-2)];
    let buf = RefMessage::<0>::new_panic(&numbers).const_format::<64>(&[]);
    assert_eq!(buf.buffer(), b"1234567890-2");
}

#[test]
fn messages_written_as_templates() {
    let m = ConstMessage::<1>::new(vec![MessageFormat::Arg(0), MessageFormat::StaticText(" world!")]).unwrap();
    assert_eq!(m.to_template(), "{0} world!");
    let m = AllocMessage::<1>::new_panic(vec![
        AllocMessageFormat::AllocText("Hello, alloc! ".to_string()),
        AllocMessageFormat::Placeholder(0),
    ]);
    assert_eq!(m.to_template(), "Hello, alloc! {0}");
    let formats = [RefMessageFormat::RefText("Hello, world! "), RefMessageFormat::Placeholder(0)];
    assert_eq!(RefMessage::<1>::new_panic(&formats).to_template(), "Hello, world! {0}");
    let numbers = [RefMessageFormat::UNumber(12), RefMessageFormat::INumber(-3), RefMessageFormat::Placeholder(10)];
    assert_eq!(RefMessage::<11>::new_panic(&numbers).to_template(), "12-3{10}");
}

#[test]
fn parsed_message_owns_its_text() {
    let message = ConstMessage::<1>::from_str("{0} \\{0} world!").unwrap();
    let expected = ConstMessage::<1>::new(vec![
        MessageFormat::Arg(0),
        MessageFormat::Text(" {0} world!".to_string()),
    ])
    .unwrap();
    assert_eq!(message, expected);
}

#[test]
fn buffers_are_zero_after_the_text() {
    let b = const_u128_to_str(42);
    assert_eq!(b.total, 2);
    assert!(b.buffer[2..].iter().all(|&x| x == 0));
    let b = const_i128_to_str(-7);
    assert!(b.buffer[2..].iter().all(|&x| x == 0));
    let formats = [RefMessageFormat::RefText("ab"), RefMessageFormat::Placeholder(0)];
    let buf = RefMessage::<1>::new_panic(&formats).const_format::<16>(&[b"c"]);
    assert_eq!(buf.buffer(), b"abc");
    assert!(buf.buffer[3..].iter().all(|&x| x == 0));
}

#[test]
fn escaped_brace_before_placeholder() {
    let t = local_fmt::token::MessageToken::from_str("x\\{0} {0}").unwrap();
    assert_eq!(t.values, vec![Token::Text("x{0} ".to_string()), Token::Arg(0)]);
    assert_eq!(t.placeholder_max, Some(0));
}
