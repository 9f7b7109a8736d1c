use vstd::prelude::*;

use crate::enum_map::Enumable;
use crate::text::{chars_of, push_char, push_text, same_text};

verus! {

pub open spec fn is_upper(c: char) -> bool {
    'A' <= c && c <= 'Z'
}

pub open spec fn is_lower_or_digit(c: char) -> bool {
    ('a' <= c && c <= 'z') || ('0' <= c && c <= '9')
}

/// The lower-case form of an ASCII letter; other characters stay.
pub open spec fn lower(c: char) -> char {
    if is_upper(c) {
        ((c as u8) + 32) as char
    } else {
        c
    }
}

/// What the character at `i` becomes: lower case, after a `_` where an
/// upper-case letter follows a lower-case letter or a digit.
pub open spec fn snake_piece(c: Seq<char>, i: int) -> Seq<char> {
    if i > 0 && is_upper(c[i]) && is_lower_or_digit(c[i - 1]) {
        seq!['_', lower(c[i])]
    } else {
        seq![lower(c[i])]
    }
}

/// The snake-case form of the first `k` characters of `c`.
pub open spec fn snake_prefix(c: Seq<char>, k: int) -> Seq<char>
    decreases k,
{
    if k <= 0 {
        Seq::empty()
    } else {
        snake_prefix(c, k - 1) + snake_piece(c, k - 1)
    }
}

/// The snake-case form of a variant name (`GameStart` is `game_start`,
/// `EN` is `en`).
pub open spec fn snake_spec(c: Seq<char>) -> Seq<char> {
    snake_prefix(c, c.len() as int)
}

/// The key of a variant name: see [`snake_spec`].
pub fn snake_case(name: &str) -> (r: String)
    ensures
        r@ == snake_spec(name@),
{
    let c = chars_of(name);
    let mut r = String::new();
    let mut k: usize = 0;
    while k < c.len()
        invariant
            c@ == name@,
            k <= c@.len(),
            r@ == snake_prefix(c@, k as int),
        decreases c@.len() - k,
    {
        let ch = c[k];
        let upper = 'A' <= ch && ch <= 'Z';
        if k > 0 && upper {
            let prev = c[k - 1];
            if ('a' <= prev && prev <= 'z') || ('0' <= prev && prev <= '9') {
                push_char(&mut r, '_');
            }
        }
        let low = if upper {
            ((ch as u8) + 32) as char
        } else {
            ch
        };
        push_char(&mut r, low);
        assert(r@ =~= snake_prefix(c@, k as int) + snake_piece(c@, k as int));
        k = k + 1;
    }
    r
}

/// The text of a failed conversion.
pub open spec fn convert_error(value: Seq<char>, owner: Seq<char>) -> Seq<char> {
    "cannot convert "@ + value + " to "@ + owner
}

/// The position of the first name whose key (see [`snake_spec`]) is `value`,
/// from position `i`.
pub open spec fn variant_from(names: Seq<&str>, value: Seq<char>, i: int) -> Option<usize>
    decreases names.len() - i,
{
    if i < 0 || i >= names.len() {
        None
    } else if snake_spec(names[i]@) == value {
        Some(i as usize)
    } else {
        variant_from(names, value, i + 1)
    }
}

/// Finds the variant among `names` whose key is `value`; the error names the
/// value and the type.
pub fn variant_index(names: &[&str], owner: &str, value: &str) -> (r: Result<usize, String>)
    ensures
        match variant_from(names@, value@, 0) {
            Some(i) => r == Ok::<usize, String>(i),
            None => (r matches Err(e) && e@ == convert_error(value@, owner@)),
        },
{
    let mut k: usize = 0;
    while k < names.len()
        invariant
            k <= names@.len(),
            variant_from(names@, value@, 0) == variant_from(names@, value@, k as int),
        decreases names@.len() - k,
    {
        let key = snake_case(names[k]);
        if same_text(key.as_str(), value) {
            return Ok(k);
        }
        k = k + 1;
    }
    let mut e = String::new();
    push_text(&mut e, "cannot convert ");
    push_text(&mut e, value);
    push_text(&mut e, " to ");
    push_text(&mut e, owner);
    Err(e)
}

/// The languages of the example application.
#[derive(Debug, Clone, Copy, PartialEq, Eq, Hash, Structural)]
pub enum Lang {
    JA,
    EN,
}

/// The message keys of the example application.
#[derive(Debug, Clone, Copy, PartialEq, Eq, Hash, Structural)]
pub enum Key {
    Hello,
    Goodbye,
    GameStart,
}

impl Enumable for Lang {
    open spec fn spec_count() -> nat {
        2
    }

    open spec fn spec_index(self) -> nat {
        match self {
            Lang::JA => 0,
            Lang::EN => 1,
        }
    }

    fn count() -> (r: usize) {
        2
    }

    fn _from_usize(value: usize) -> (r: Self) {
        if value == 0 {
            Lang::JA
        } else {
            Lang::EN
        }
    }

    fn _into_usize(self) -> (r: usize) {
        match self {
            Lang::JA => 0,
            Lang::EN => 1,
        }
    }
}

impl Enumable for Key {
    open spec fn spec_count() -> nat {
        3
    }

    open spec fn spec_index(self) -> nat {
        match self {
            Key::Hello => 0,
            Key::Goodbye => 1,
            Key::GameStart => 2,
        }
    }

    fn count() -> (r: usize) {
        3
    }

    fn _from_usize(value: usize) -> (r: Self) {
        if value == 0 {
            Key::Hello
        } else if value == 1 {
            Key::Goodbye
        } else {
            Key::GameStart
        }
    }

    fn _into_usize(self) -> (r: usize) {
        match self {
            Key::Hello => 0,
            Key::Goodbye => 1,
            Key::GameStart => 2,
        }
    }
}

impl Lang {
    /// The language's key: `ja` or `en`.
    pub fn as_str(self) -> (r: &'static str)
        ensures
            r@ == match self {
                Lang::JA => "ja"@,
                Lang::EN => "en"@,
            },
    {
        match self {
            Lang::JA => "ja",
            Lang::EN => "en",
        }
    }

    /// The language whose key is `value`.
    pub fn try_from_str(value: &str) -> (r: Result<Lang, String>)
        ensures
            value@ == "ja"@ ==> r == Ok::<Lang, String>(Lang::JA),
            value@ == "en"@ ==> r == Ok::<Lang, String>(Lang::EN),
            value@ != "ja"@ && value@ != "en"@ ==> (r matches Err(e) && e@ == convert_error(
                value@,
                "Lang"@,
            )),
    {
        proof {
            reveal_strlit("ja");
            reveal_strlit("en");
            assert("ja"@[0] != "en"@[0]);
        }
        if same_text(value, "ja") {
            Ok(Lang::JA)
        } else if same_text(value, "en") {
            Ok(Lang::EN)
        } else {
            let mut e = String::new();
            push_text(&mut e, "cannot convert ");
            push_text(&mut e, value);
            push_text(&mut e, " to ");
            push_text(&mut e, "Lang");
            Err(e)
        }
    }
}

impl Key {
    /// The key's text: `hello`, `goodbye` or `game_start`.
    pub fn as_str(self) -> (r: &'static str)
        ensures
            r@ == match self {
                Key::Hello => "hello"@,
                Key::Goodbye => "goodbye"@,
                Key::GameStart => "game_start"@,
            },
    {
        match self {
            Key::Hello => "hello",
            Key::Goodbye => "goodbye",
            Key::GameStart => "game_start",
        }
    }
}

/// The kind of a locale file.
#[derive(Debug, Clone, Copy, PartialEq, Eq, Structural)]
pub enum ArgFileType {
    Toml,
    Json,
    Yaml,
}

impl ArgFileType {
    /// The kind named `s`: `toml`, `json` or `yaml`.
    pub fn parse(s: &str) -> (r: Result<ArgFileType, String>)
        ensures
            s@ == "toml"@ ==> r == Ok::<ArgFileType, String>(ArgFileType::Toml),
            s@ == "json"@ ==> r == Ok::<ArgFileType, String>(ArgFileType::Json),
            s@ == "yaml"@ ==> r == Ok::<ArgFileType, String>(ArgFileType::Yaml),
            s@ != "toml"@ && s@ != "json"@ && s@ != "yaml"@ ==> (r matches Err(e) && e@
                == "expected toml, json or yaml"@),
    {
        proof {
            reveal_strlit("toml");
            reveal_strlit("json");
            reveal_strlit("yaml");
            assert("toml"@[0] != "json"@[0] && "toml"@[0] != "yaml"@[0] && "json"@[0] != "yaml"@[0]);
        }
        if same_text(s, "toml") {
            Ok(ArgFileType::Toml)
        } else if same_text(s, "json") {
            Ok(ArgFileType::Json)
        } else if same_text(s, "yaml") {
            Ok(ArgFileType::Yaml)
        } else {
            let mut e = String::new();
            push_text(&mut e, "expected toml, json or yaml");
            Err(e)
        }
    }
}

} // verus!
