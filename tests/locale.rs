use std::sync::RwLock;

use local_fmt::enum_map::{Enumable, EnumableMap};
use local_fmt::local_fmt::{LocalFmt, Selector};
use local_fmt::message::ConstMessage;
use local_fmt::hierarchy::Hierarchy;
use local_fmt::names::{snake_case, variant_index, ArgFileType, Key, Lang};
use local_fmt::token::{MessageToken, MessageValueError};
use local_fmt::tree::{
    build_node, shape_of, Entry, Field, LangTree, LocaleTable, Node, Shape, Source, TreeError,
};

fn leaf(key: &str, template: &str) -> Entry {
    Entry { key: key.to_string(), node: Node::Leaf(MessageToken::from_str(template).unwrap()) }
}

fn group(key: &str, entries: Vec<Entry>) -> Entry {
    Entry { key: key.to_string(), node: Node::Group(entries) }
}

fn field(name: &str, shape: Shape) -> Field {
    Field { name: name.to_string(), shape }
}

fn tree(lang: &str, entries: Vec<Entry>) -> LangTree {
    LangTree { lang: lang.to_string(), root: Node::Group(entries) }
}

fn key_schema() -> Shape {
    Shape::Group(vec![
        field(Key::Hello.as_str(), Shape::Leaf),
        field(Key::Goodbye.as_str(), Shape::Leaf),
        field(Key::GameStart.as_str(), Shape::Leaf),
    ])
}

fn translator() -> LocaleTable {
    let ja = tree(
        "ja",
        vec![
            leaf("hello", "こんにちは世界"),
            leaf("goodbye", "さようなら {0}"),
            leaf("game_start", "ゲーム開始"),
        ],
    );
    let en = tree(
        "en",
        vec![leaf("hello", "Hello world"), leaf("goodbye", "Goodbye {0}"), leaf("game_start", "Game start")],
    );
    LocaleTable::build(key_schema(), vec![ja, en]).unwrap()
}

#[test]
fn test() {
    let table = translator();
    let en = Lang::EN._into_usize();
    let ja = Lang::JA._into_usize();
    assert_eq!(table.format(en, &[Key::Hello.as_str()], &[]).unwrap(), "Hello world");
    assert_eq!(table.format(ja, &[Key::Hello.as_str()], &[]).unwrap(), "こんにちは世界");
    assert_eq!(table.format(en, &[Key::Goodbye.as_str()], &["mori"]).unwrap(), "Goodbye mori");
}

#[test]
fn test_translator() {
    let table = translator();
    assert_eq!(table.len(), 2);
}

struct Inner {
    name: String,
}

struct Messages {
    inner: Inner,
    hello: ConstMessage<1>,
}

static LANG: RwLock<Lang> = RwLock::new(Lang::EN);

fn current() -> Lang {
    *LANG.read().unwrap()
}

#[test]
fn derive_normal() {
    let messages = EnumableMap::new(|l| match l {
        Lang::EN => Messages {
            inner: Inner { name: "world".to_string() },
            hello: ConstMessage::from_str("Hello, world! {0}").unwrap(),
        },
        Lang::JA => Messages {
            inner: Inner { name: "世界".to_string() },
            hello: ConstMessage::from_str("こんにちは、世界！ {0}").unwrap(),
        },
    });
    let fmt = LocalFmt::new(messages, Selector::Dynamic(current as fn() -> Lang));

    assert_eq!(fmt.get_message().hello.format(&["Rust"]), "Hello, world! Rust");
    assert_eq!(fmt.get_message().inner.name, "world");

    *LANG.write().unwrap() = Lang::JA;

    assert_eq!(fmt.get_message().hello.format(&["Rust"]), "こんにちは、世界！ Rust");
    assert_eq!(fmt.get_message().inner.name, "世界");
    *LANG.write().unwrap() = Lang::EN;
}

#[test]
fn fixed_selector_always_gives_its_language() {
    let messages = EnumableMap::new(|l| match l {
        Lang::EN => "Hello",
        Lang::JA => "こんにちは",
    });
    let mut fmt = LocalFmt::new(messages, Selector::<Lang, fn() -> Lang>::Fixed(Lang::EN));
    for _ in 0..3 {
        assert_eq!(fmt.lang(), Lang::EN);
        assert_eq!(*fmt.get_message(), "Hello");
    }
    let kept: &str = *fmt.get_message();
    fmt.set_selector(Selector::Fixed(Lang::JA));
    assert_eq!(*fmt.get_message(), "こんにちは");
    assert_eq!(*fmt.get(Lang::EN), "Hello");
    assert_eq!(kept, "Hello");
}

#[test]
fn new() {
    let map = EnumableMap::new(|k| match k {
        Key::Hello => "Hey",
        Key::Goodbye => "Kon",
        Key::GameStart => "Tya",
    });
    assert_eq!(*map.get(Key::Hello), "Hey");
    assert_eq!(*map.get(Key::Goodbye), "Kon");
    assert_eq!(*map.get(Key::GameStart), "Tya");
}

#[test]
fn enum_iter() {
    let all = EnumableMap::new(|k: Lang| k);
    let mut iter = all.as_slice().iter();
    assert_eq!(iter.next(), Some(Lang::JA).as_ref());
    assert_eq!(iter.next(), Some(Lang::EN).as_ref());
    assert_eq!(iter.next(), None);
}

const LANG_NAMES: [&str; 3] = ["JA", "EN", "ZH"];
const KEY_NAMES: [&str; 2] = ["HelloWorld", "GameEndMessage"];

#[test]
fn as_local() {
    assert_eq!(snake_case(LANG_NAMES[0]), "ja");
    assert_eq!(snake_case(LANG_NAMES[1]), "en");
    assert_eq!(variant_index(&LANG_NAMES, "Lang", "en").unwrap(), 1);
    assert_eq!(variant_index(&LANG_NAMES, "Lang", "ja").unwrap(), 0);
}

#[test]
fn convert_str_convert_str_into() {
    assert_eq!(snake_case(LANG_NAMES[0]), "ja");
    assert_eq!(snake_case(LANG_NAMES[1]), "en");
    assert_eq!(snake_case(LANG_NAMES[2]), "zh");
}

#[test]
fn convert_str_convert_str_try_from() {
    assert_eq!(variant_index(&LANG_NAMES, "Lang", "en").unwrap(), 1);
    assert_eq!(variant_index(&LANG_NAMES, "Lang", "ja").unwrap(), 0);
    assert_eq!(variant_index(&LANG_NAMES, "Lang", "zh").unwrap(), 2);
}

#[test]
fn convert_str_error() {
    assert_eq!(variant_index(&LANG_NAMES, "Lang", "eN").unwrap_err(), "cannot convert eN to Lang");
    assert_eq!(variant_index(&LANG_NAMES, "Lang", "jp").unwrap_err(), "cannot convert jp to Lang");
}

#[test]
fn convert_str_key_convert_str_into() {
    assert_eq!(snake_case(KEY_NAMES[0]), "hello_world");
    assert_eq!(snake_case(KEY_NAMES[1]), "game_end_message");
}

#[test]
fn convert_str_key_convert_str_try_from() {
    assert_eq!(variant_index(&KEY_NAMES, "Key", "hello_world").unwrap(), 0);
    assert_eq!(variant_index(&KEY_NAMES, "Key", "game_end_message").unwrap(), 1);
}

#[test]
fn lang_keys_convert_both_ways() {
    assert_eq!(Lang::JA.as_str(), "ja");
    assert_eq!(Lang::try_from_str("en").unwrap(), Lang::EN);
    assert_eq!(Lang::try_from_str("jp").unwrap_err(), "cannot convert jp to Lang");
    assert_eq!(Key::GameStart.as_str(), "game_start");
}

#[test]
fn arity_mismatch_across_languages() {
    let schema = Shape::Group(vec![field("hello", Shape::Leaf)]);
    let en = tree("EN", vec![leaf("hello", "Hello {0}")]);
    let ja = tree("JA", vec![leaf("hello", "{0} {1}")]);
    match LocaleTable::build(schema, vec![en, ja]) {
        Err(TreeError::ArityMismatch { lang, key, expected, actual }) => {
            assert_eq!(lang, "JA");
            assert_eq!(key, vec!["hello".to_string()]);
            assert_eq!((expected, actual), (1, 2));
        }
        _ => panic!("expected an arity mismatch"),
    }
}

#[test]
fn extra_nested_field_is_refused() {
    let schema = Shape::Group(vec![field("hello", Shape::Leaf)]);
    let en = tree("EN", vec![leaf("hello", "Hello")]);
    let ja = tree("JA", vec![leaf("hello", "Konnichiwa"), group("extra", vec![leaf("x", "y")])]);
    match LocaleTable::build(schema, vec![en, ja]) {
        Err(TreeError::UnexpectedNesting { lang, key }) => {
            assert_eq!(lang, "JA");
            assert_eq!(key, vec!["extra".to_string()]);
        }
        _ => panic!("expected unexpected nesting"),
    }
}

#[test]
fn missing_and_misplaced_keys_are_refused() {
    let schema = Shape::Group(vec![field("menu", Shape::Group(vec![field("open", Shape::Leaf)]))]);
    let en = tree("EN", vec![group("menu", vec![leaf("open", "Open")])]);
    let ja = tree("JA", vec![group("menu", vec![])]);
    match LocaleTable::build(schema, vec![en, ja]) {
        Err(TreeError::MissingKey { lang, key }) => {
            assert_eq!(lang, "JA");
            assert_eq!(key, vec!["menu".to_string(), "open".to_string()]);
        }
        _ => panic!("expected a missing key"),
    }
    let schema = Shape::Group(vec![field("menu", Shape::Group(vec![field("open", Shape::Leaf)]))]);
    let en = tree("EN", vec![leaf("menu", "Menu")]);
    assert!(matches!(
        LocaleTable::build(schema, vec![en]),
        Err(TreeError::ExpectedGroup { .. })
    ));
}

#[test]
fn nested_lookup_and_wrong_argument_count() {
    let schema = Shape::Group(vec![
        field("menu", Shape::Group(vec![field("open", Shape::Leaf)])),
        field("hello", Shape::Leaf),
    ]);
    let en = tree("EN", vec![leaf("hello", "Hi {0}"), group("menu", vec![leaf("open", "Open {0}")])]);
    let table = LocaleTable::build(schema, vec![en]).unwrap();
    assert_eq!(table.format(0, &["menu", "open"], &["file"]).unwrap(), "Open file");
    assert_eq!(table.format(0, &["menu", "open"], &[]), None);
    assert_eq!(table.format(0, &["menu"], &[]), None);
    assert_eq!(table.format(1, &["hello"], &["x"]), None);
}

#[test]
fn inferred_argument_count() {
    let t = MessageToken::from_str("{2} and {0}").unwrap_err();
    assert_eq!(t, MessageValueError::NotFound(1, 2));
    let t = MessageToken::from_str("{1} {0}").unwrap();
    assert_eq!(t.args(), 2);
    assert_eq!(t.format(&["a", "b"]), "b a");
    assert_eq!(MessageToken::from_str("{").unwrap_err(), MessageValueError::EmptyPlaceholder);
    assert_eq!(MessageToken::from_str("plain").unwrap().args(), 0);
}

#[test]
fn hierarchy_joins_keys() {
    let mut h = Hierarchy::new();
    assert_eq!(h.join("key"), "key");
    h.push("a".to_string());
    h.push("b".to_string());
    assert_eq!(h.join("key"), "a.b.key");
    assert_eq!(h.as_vec().len(), 2);
    h.pop();
    assert_eq!(h.joining("key".to_string()), "a.key");
}

#[test]
fn file_types() {
    assert_eq!(ArgFileType::parse("toml").unwrap(), ArgFileType::Toml);
    assert_eq!(ArgFileType::parse("json").unwrap(), ArgFileType::Json);
    assert_eq!(ArgFileType::parse("yaml").unwrap(), ArgFileType::Yaml);
    assert_eq!(ArgFileType::parse("ini").unwrap_err(), "expected toml, json or yaml");
}

#[test]
fn map_from_values() {
    let map: EnumableMap<Lang, u8> = EnumableMap::from_from_value(vec![7, 9]);
    assert_eq!(*map.get(Lang::EN), 9);
    assert_eq!(map.as_slice(), &[7, 9]);
}

#[test]
fn hierarchy_process_enters_and_leaves() {
    let mut hierarchy = Hierarchy::new();
    hierarchy.process("a".to_string(), |h| {
        h.process("b".to_string(), |h| {
            assert_eq!(h.join("key"), "a.b.key");
        });
        assert_eq!(h.join("key"), "a.key");
    });
    assert_eq!(hierarchy.join("key"), "key");
}

#[test]
fn schema_from_a_tree() {
    let en = tree("EN", vec![leaf("hello", "Hi {0}"), group("menu", vec![leaf("open", "Open")])]);
    let ja = tree("JA", vec![group("menu", vec![leaf("open", "Hiraku")]), leaf("hello", "{0} san")]);
    let schema = shape_of(&en.root);
    match &schema {
        Shape::Group(fields) => {
            assert_eq!(fields.len(), 2);
            assert_eq!(fields[0].name, "hello");
            assert!(matches!(fields[1].shape, Shape::Group(_)));
        }
        Shape::Leaf => panic!("expected a group"),
    }
    let table = LocaleTable::build(schema, vec![en, ja]).unwrap();
    assert_eq!(table.format(1, &["hello"], &["Mori"]).unwrap(), "Mori san");
    assert_eq!(table.tree(1).lang, "JA");
}

#[test]
fn tree_from_decoded_source() {
    let source = Source::Group(vec![
        ("hello".to_string(), Source::Text("Hi {0}".to_string())),
        (
            "menu".to_string(),
            Source::Group(vec![("open".to_string(), Source::Text("Open {1}".to_string()))]),
        ),
    ]);
    let mut path = Hierarchy::new();
    let err = build_node(&"EN".to_string(), &mut path, &source).unwrap_err();
    assert_eq!(err.lang, "EN");
    assert_eq!(err.key, vec!["menu".to_string(), "open".to_string()]);
    assert_eq!(err.error, MessageValueError::NotFound(0, 1));
    assert_eq!(path.as_vec().len(), 0);

    let source = Source::Group(vec![("hello".to_string(), Source::Text("Hi {0}".to_string()))]);
    match build_node(&"EN".to_string(), &mut path, &source).unwrap() {
        Node::Group(entries) => {
            assert_eq!(entries[0].key, "hello");
            match &entries[0].node {
                Node::Leaf(t) => assert_eq!(t.placeholder_max, Some(0)),
                Node::Group(_) => panic!("expected a message"),
            }
        }
        Node::Leaf(_) => panic!("expected a group"),
    }
}

#[test]
fn defects_name_kind_and_path() {
    let schema = Shape::Group(vec![field("menu", Shape::Group(vec![field("open", Shape::Leaf)]))]);
    let en = tree("EN", vec![group("menu", vec![group("open", vec![])])]);
    match LocaleTable::build(schema, vec![en]) {
        Err(TreeError::UnexpectedNesting { lang, key }) => {
            assert_eq!(lang, "EN");
            assert_eq!(key, vec!["menu".to_string(), "open".to_string()]);
        }
        _ => panic!("expected unexpected nesting"),
    }
    let schema = Shape::Group(vec![field("menu", Shape::Group(vec![field("open", Shape::Leaf)]))]);
    let en = tree("EN", vec![leaf("menu", "Menu")]);
    match LocaleTable::build(schema, vec![en]) {
        Err(TreeError::ExpectedGroup { lang, key }) => {
            assert_eq!(lang, "EN");
            assert_eq!(key, vec!["menu".to_string()]);
        }
        _ => panic!("expected a group"),
    }
}

#[test]
fn process_leaves_the_hierarchy() {
    let mut h = Hierarchy::new();
    h.push("root".to_string());
    let inner = h.process("a".to_string(), |h| h.join("key"));
    assert_eq!(inner, "root.a.key");
    assert_eq!(h.join("key"), "root.key");
}

#[test]
fn named_reference_in_locale_file_is_refused() {
    let source = Source::Group(vec![("hello".to_string(), Source::Text("Hello {0 }".to_string()))]);
    let err = build_node(&"EN".to_string(), &mut Hierarchy::new(), &source).unwrap_err();
    assert_eq!(err.key, vec!["hello".to_string()]);
    assert_eq!(err.error, MessageValueError::NamedReference);
    let source = Source::Group(vec![("bad".to_string(), Source::Text("{".to_string()))]);
    let err = build_node(&"EN".to_string(), &mut Hierarchy::new(), &source).unwrap_err();
    assert_eq!(err.error, MessageValueError::EmptyPlaceholder);
}

#[test]
fn duplicate_language_is_refused() {
    let schema = Shape::Group(vec![field("hello", Shape::Leaf)]);
    let a = tree("EN", vec![leaf("hello", "Hi")]);
    let b = tree("JA", vec![leaf("hello", "Yo")]);
    let c = tree("EN", vec![leaf("hello", "Hello")]);
    match LocaleTable::build(schema, vec![a, b, c]) {
        Err(TreeError::DuplicateLanguage { lang }) => assert_eq!(lang, "EN"),
        _ => panic!("expected a duplicate language"),
    }
}

#[test]
fn process_drops_only_the_innermost_key() {
    let mut h = Hierarchy::new();
    h.process("a".to_string(), |h| h.push("b".to_string()));
    assert_eq!(h.join("key"), "a.key");
}
