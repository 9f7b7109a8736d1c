use vstd::prelude::*;

use crate::hierarchy::Hierarchy;
use crate::message::arg_texts;
use crate::template::{parse_spec, piece_ids, pieces_of, render};
use crate::text::same_text;
use crate::template::numbered_only;
use crate::token::{has_named_reference, infer_error, max_id, MessageToken, MessageValueError};

verus! {

broadcast use vstd::std_specs::vec::axiom_vec_index_decreases;

/// The schema of a message tree: a leaf message, or a group of named fields.
#[derive(Debug)]
pub enum Shape {
    Leaf,
    Group(Vec<Field>),
}

/// A named field of a group in the schema.
#[derive(Debug)]
pub struct Field {
    pub name: String,
    pub shape: Shape,
}

/// One language's message tree: a leaf message, or a group of keyed nodes.
#[derive(Debug)]
pub enum Node {
    Leaf(MessageToken),
    Group(Vec<Entry>),
}

/// A keyed node of a group.
#[derive(Debug)]
pub struct Entry {
    pub key: String,
    pub node: Node,
}

/// The position of the first entry at or after `i` keyed `name`, or `-1`.
pub open spec fn find_entry_from(es: Seq<Entry>, name: Seq<char>, i: int) -> int
    decreases es.len() - i,
{
    if i < 0 || i >= es.len() {
        -1
    } else if es[i].key@ == name {
        i
    } else {
        find_entry_from(es, name, i + 1)
    }
}

/// The position of the first entry keyed `name`, or `-1`.
pub open spec fn find_entry(es: Seq<Entry>, name: Seq<char>) -> int {
    find_entry_from(es, name, 0)
}

/// Some field of `fs` is named `name`.
pub open spec fn has_field(fs: Seq<Field>, name: Seq<char>) -> bool {
    exists|i: int| 0 <= i < fs.len() && #[trigger] fs[i].name@ == name
}

/// The tree `n` has exactly the shape `s`: a leaf where the schema has a leaf,
/// and in each group every field of the schema (recursively) and no other key.
pub open spec fn node_ok(n: Node, s: Shape) -> bool
    decreases s,
{
    match s {
        Shape::Leaf => n is Leaf,
        Shape::Group(fs) => match n {
            Node::Group(es) => {
                &&& forall|i: int|
                    0 <= i < fs@.len() ==> {
                        let j = find_entry(es@, (#[trigger] fs@[i]).name@);
                        0 <= j && node_ok(es@[j].node, fs@[i].shape)
                    }
                &&& forall|j: int| 0 <= j < es@.len() ==> has_field(fs@, (#[trigger] es@[j]).key@)
            },
            Node::Leaf(_) => false,
        },
    }
}

/// Along the shape `s`, every leaf of `n` takes as many arguments as the leaf
/// at the same place in `reference`.
pub open spec fn arity_ok(reference: Node, n: Node, s: Shape) -> bool
    decreases s,
{
    match s {
        Shape::Leaf => match (reference, n) {
            (Node::Leaf(a), Node::Leaf(b)) => a.spec_args() == b.spec_args(),
            _ => false,
        },
        Shape::Group(fs) => match (reference, n) {
            (Node::Group(ra), Node::Group(es)) => forall|i: int|
                0 <= i < fs@.len() ==> {
                    let p = find_entry(ra@, (#[trigger] fs@[i]).name@);
                    let q = find_entry(es@, fs@[i].name@);
                    0 <= p && 0 <= q && arity_ok(ra@[p].node, es@[q].node, fs@[i].shape)
                },
            _ => false,
        },
    }
}

/// A defect found while checking the message trees of the languages.
#[derive(Debug, Clone)]
pub enum TreeError {
    /// The schema has the field at `key`, the language's tree does not.
    MissingKey { lang: String, key: Vec<String> },
    /// The language's tree has a group, or an extra key, at `key` where the
    /// schema has a leaf or nothing.
    UnexpectedNesting { lang: String, key: Vec<String> },
    /// The language's tree has a leaf at `key` where the schema has a group.
    ExpectedGroup { lang: String, key: Vec<String> },
    /// The message at `key` takes `actual` arguments in the language and
    /// `expected` in the first language.
    ArityMismatch { lang: String, key: Vec<String>, expected: usize, actual: usize },
    /// Two trees are given for the language `lang`.
    DuplicateLanguage { lang: String },
}

impl TreeError {
    pub open spec fn spec_lang(&self) -> Seq<char> {
        match self {
            TreeError::MissingKey { lang, .. } => lang@,
            TreeError::UnexpectedNesting { lang, .. } => lang@,
            TreeError::ExpectedGroup { lang, .. } => lang@,
            TreeError::ArityMismatch { lang, .. } => lang@,
            TreeError::DuplicateLanguage { lang } => lang@,
        }
    }
}

/// A defect, as a mathematical value: its kind and the key path where it
/// stands.
pub enum Defect {
    MissingKey(Seq<Seq<char>>),
    UnexpectedNesting(Seq<Seq<char>>),
    ExpectedGroup(Seq<Seq<char>>),
    ArityMismatch(Seq<Seq<char>>, usize, usize),
    DuplicateLanguage,
}

/// A key path as texts.
pub open spec fn key_view(key: Seq<String>) -> Seq<Seq<char>> {
    key.map_values(|k: String| k@)
}

impl TreeError {
    pub open spec fn defect(&self) -> Defect {
        match self {
            TreeError::MissingKey { key, .. } => Defect::MissingKey(key_view(key@)),
            TreeError::UnexpectedNesting { key, .. } => Defect::UnexpectedNesting(key_view(key@)),
            TreeError::ExpectedGroup { key, .. } => Defect::ExpectedGroup(key_view(key@)),
            TreeError::ArityMismatch { key, expected, actual, .. } => Defect::ArityMismatch(
                key_view(key@),
                *expected,
                *actual,
            ),
            TreeError::DuplicateLanguage { .. } => Defect::DuplicateLanguage,
        }
    }
}

/// The argument count of a message, saturated at `usize::MAX`.
pub open spec fn sat_args(t: MessageToken) -> usize {
    if t.spec_args() > usize::MAX {
        usize::MAX
    } else {
        t.spec_args() as usize
    }
}

/// The first defect of `n` against the shape `s`, in the order the check
/// goes: the node itself, then each field of the schema in order (a missing
/// key, else the field's own first defect), then the first key of `n` that
/// the schema does not name.
pub open spec fn node_defect(path: Seq<Seq<char>>, n: Node, s: Shape) -> Option<Defect>
    decreases s,
{
    match s {
        Shape::Leaf => match n {
            Node::Leaf(_) => None,
            Node::Group(_) => Some(Defect::UnexpectedNesting(path)),
        },
        Shape::Group(fs) => match n {
            Node::Leaf(_) => Some(Defect::ExpectedGroup(path)),
            Node::Group(es) => if exists|i: int|
                0 <= i < fs@.len() && (find_entry(es@, (#[trigger] fs@[i]).name@) < 0
                    || node_defect(
                    path.push(fs@[i].name@),
                    es@[find_entry(es@, fs@[i].name@)].node,
                    fs@[i].shape,
                ) is Some) && forall|k: int|
                    0 <= k < i ==> find_entry(es@, (#[trigger] fs@[k]).name@) >= 0
                        && node_defect(
                        path.push(fs@[k].name@),
                        es@[find_entry(es@, fs@[k].name@)].node,
                        fs@[k].shape,
                    ) is None {
                let i = choose|i: int|
                    0 <= i < fs@.len() && (find_entry(es@, (#[trigger] fs@[i]).name@) < 0
                        || node_defect(
                        path.push(fs@[i].name@),
                        es@[find_entry(es@, fs@[i].name@)].node,
                        fs@[i].shape,
                    ) is Some) && forall|k: int|
                        0 <= k < i ==> find_entry(es@, (#[trigger] fs@[k]).name@) >= 0
                            && node_defect(
                            path.push(fs@[k].name@),
                            es@[find_entry(es@, fs@[k].name@)].node,
                            fs@[k].shape,
                        ) is None;
                let j = find_entry(es@, fs@[i].name@);
                if j < 0 {
                    Some(Defect::MissingKey(path.push(fs@[i].name@)))
                } else {
                    node_defect(path.push(fs@[i].name@), es@[j].node, fs@[i].shape)
                }
            } else if exists|j: int|
                0 <= j < es@.len() && !has_field(fs@, (#[trigger] es@[j]).key@) && forall|k: int|
                    0 <= k < j ==> has_field(fs@, (#[trigger] es@[k]).key@) {
                let j = choose|j: int|
                    0 <= j < es@.len() && !has_field(fs@, (#[trigger] es@[j]).key@) && forall|k: int|
                        0 <= k < j ==> has_field(fs@, (#[trigger] es@[k]).key@);
                Some(Defect::UnexpectedNesting(path.push(es@[j].key@)))
            } else {
                None
            },
        },
    }
}

/// The first leaf, in the order of the schema, at which `n` takes another
/// argument count than `reference`; both trees have the shape `s`.
pub open spec fn arity_defect(path: Seq<Seq<char>>, reference: Node, n: Node, s: Shape) -> Option<
    Defect,
>
    decreases s,
{
    match s {
        Shape::Leaf => match (reference, n) {
            (Node::Leaf(a), Node::Leaf(b)) => if a.spec_args() == b.spec_args() {
                None
            } else {
                Some(Defect::ArityMismatch(path, sat_args(a), sat_args(b)))
            },
            _ => None,
        },
        Shape::Group(fs) => match (reference, n) {
            (Node::Group(ra), Node::Group(es)) => if exists|i: int|
                0 <= i < fs@.len() && arity_defect(
                    path.push((#[trigger] fs@[i]).name@),
                    ra@[find_entry(ra@, fs@[i].name@)].node,
                    es@[find_entry(es@, fs@[i].name@)].node,
                    fs@[i].shape,
                ) is Some && forall|k: int|
                    0 <= k < i ==> arity_defect(
                        path.push((#[trigger] fs@[k]).name@),
                        ra@[find_entry(ra@, fs@[k].name@)].node,
                        es@[find_entry(es@, fs@[k].name@)].node,
                        fs@[k].shape,
                    ) is None {
                let i = choose|i: int|
                    0 <= i < fs@.len() && arity_defect(
                        path.push((#[trigger] fs@[i]).name@),
                        ra@[find_entry(ra@, fs@[i].name@)].node,
                        es@[find_entry(es@, fs@[i].name@)].node,
                        fs@[i].shape,
                    ) is Some && forall|k: int|
                        0 <= k < i ==> arity_defect(
                            path.push((#[trigger] fs@[k]).name@),
                            ra@[find_entry(ra@, fs@[k].name@)].node,
                            es@[find_entry(es@, fs@[k].name@)].node,
                            fs@[k].shape,
                        ) is None;
                arity_defect(
                    path.push(fs@[i].name@),
                    ra@[find_entry(ra@, fs@[i].name@)].node,
                    es@[find_entry(es@, fs@[i].name@)].node,
                    fs@[i].shape,
                )
            } else {
                None
            },
            _ => None,
        },
    }
}

/// The field at `i` of `fs` is missing from `es`, or its node has a defect.
pub open spec fn field_bad(path: Seq<Seq<char>>, es: Seq<Entry>, fs: Seq<Field>, i: int) -> bool {
    find_entry(es, fs[i].name@) < 0 || node_defect(
        path.push(fs[i].name@),
        es[find_entry(es, fs[i].name@)].node,
        fs[i].shape,
    ) is Some
}

/// The field at `i` is the first defective one.
pub open spec fn first_bad_field(path: Seq<Seq<char>>, es: Seq<Entry>, fs: Seq<Field>, i: int) -> bool {
    0 <= i < fs.len() && field_bad(path, es, fs, i) && forall|k: int|
        0 <= k < i ==> !field_bad(path, es, fs, k)
}

/// The entry at `j` is the first whose key the schema does not name.
pub open spec fn first_extra_key(es: Seq<Entry>, fs: Seq<Field>, j: int) -> bool {
    0 <= j < es.len() && !has_field(fs, es[j].key@) && forall|k: int|
        0 <= k < j ==> has_field(fs, es[k].key@)
}

/// When the field at `i` is the first defective one, the node's first defect
/// is that field's: its key missing, at the path extended by it, or the first
/// defect below it.
pub proof fn lemma_first_bad_field(path: Seq<Seq<char>>, es: Vec<Entry>, fs: Vec<Field>, i: int)
    requires
        first_bad_field(path, es@, fs@, i),
    ensures
        node_defect(path, Node::Group(es), Shape::Group(fs)) == (if find_entry(
            es@,
            fs@[i].name@,
        ) < 0 {
            Some(Defect::MissingKey(path.push(fs@[i].name@)))
        } else {
            node_defect(
                path.push(fs@[i].name@),
                es@[find_entry(es@, fs@[i].name@)].node,
                fs@[i].shape,
            )
        }),
{
    assert(fs@[i] == fs@[i]);
    assert forall|k: int| 0 <= k < i implies find_entry(es@, (#[trigger] fs@[k]).name@) >= 0
        && node_defect(
        path.push(fs@[k].name@),
        es@[find_entry(es@, fs@[k].name@)].node,
        fs@[k].shape,
    ) is None by {
        assert(!field_bad(path, es@, fs@, k));
    }
    let c = choose|c: int|
        0 <= c < fs@.len() && (find_entry(es@, (#[trigger] fs@[c]).name@) < 0 || node_defect(
            path.push(fs@[c].name@),
            es@[find_entry(es@, fs@[c].name@)].node,
            fs@[c].shape,
        ) is Some) && forall|k: int|
            0 <= k < c ==> find_entry(es@, (#[trigger] fs@[k]).name@) >= 0 && node_defect(
                path.push(fs@[k].name@),
                es@[find_entry(es@, fs@[k].name@)].node,
                fs@[k].shape,
            ) is None;
    if c < i {
        assert(!field_bad(path, es@, fs@, c));
    } else if c > i {
        assert(fs@[i] == fs@[i]);
    }
}

/// When every field is sound and the entry at `j` is the first whose key the
/// schema does not name, the node's first defect is unexpected nesting at the
/// path extended by that key.
pub proof fn lemma_first_extra_key(path: Seq<Seq<char>>, es: Vec<Entry>, fs: Vec<Field>, j: int)
    requires
        first_extra_key(es@, fs@, j),
        forall|i: int| 0 <= i < fs@.len() ==> !field_bad(path, es@, fs@, i),
    ensures
        node_defect(path, Node::Group(es), Shape::Group(fs)) == Some(
            Defect::UnexpectedNesting(path.push(es@[j].key@)),
        ),
{
    assert(es@[j] == es@[j]);
    assert forall|k: int| 0 <= k < j implies has_field(fs@, (#[trigger] es@[k]).key@) by {}
    assert forall|i: int| 0 <= i < fs@.len() implies !((find_entry(es@, (#[trigger] fs@[i]).name@)
        < 0 || node_defect(
        path.push(fs@[i].name@),
        es@[find_entry(es@, fs@[i].name@)].node,
        fs@[i].shape,
    ) is Some)) by {
        assert(!field_bad(path, es@, fs@, i));
    }
    let c = choose|c: int|
        0 <= c < es@.len() && !has_field(fs@, (#[trigger] es@[c]).key@) && forall|k: int|
            0 <= k < c ==> has_field(fs@, (#[trigger] es@[k]).key@);
    if c < j {
        assert(has_field(fs@, es@[c].key@));
    } else if c > j {
        assert(es@[j] == es@[j]);
    }
}

proof fn lemma_group_sound(path: Seq<Seq<char>>, es: Vec<Entry>, fs: Vec<Field>)
    requires
        forall|i: int| 0 <= i < fs@.len() ==> !field_bad(path, es@, fs@, i),
        forall|j: int| 0 <= j < es@.len() ==> has_field(fs@, (#[trigger] es@[j]).key@),
    ensures
        node_defect(path, Node::Group(es), Shape::Group(fs)) is None,
{
    assert forall|i: int| 0 <= i < fs@.len() implies !((find_entry(es@, (#[trigger] fs@[i]).name@)
        < 0 || node_defect(
        path.push(fs@[i].name@),
        es@[find_entry(es@, fs@[i].name@)].node,
        fs@[i].shape,
    ) is Some)) by {
        assert(!field_bad(path, es@, fs@, i));
    }
}

/// The field at `i` has an arity defect.
pub open spec fn arity_bad(
    path: Seq<Seq<char>>,
    ra: Seq<Entry>,
    es: Seq<Entry>,
    fs: Seq<Field>,
    i: int,
) -> bool {
    arity_defect(
        path.push(fs[i].name@),
        ra[find_entry(ra, fs[i].name@)].node,
        es[find_entry(es, fs[i].name@)].node,
        fs[i].shape,
    ) is Some
}

/// When the field at `i` is the first whose messages disagree on argument
/// counts, the first arity defect is that field's.
pub proof fn lemma_first_arity_bad(
    path: Seq<Seq<char>>,
    ra: Vec<Entry>,
    es: Vec<Entry>,
    fs: Vec<Field>,
    i: int,
)
    requires
        0 <= i < fs@.len(),
        arity_bad(path, ra@, es@, fs@, i),
        forall|k: int| 0 <= k < i ==> !arity_bad(path, ra@, es@, fs@, k),
    ensures
        arity_defect(path, Node::Group(ra), Node::Group(es), Shape::Group(fs)) == arity_defect(
            path.push(fs@[i].name@),
            ra@[find_entry(ra@, fs@[i].name@)].node,
            es@[find_entry(es@, fs@[i].name@)].node,
            fs@[i].shape,
        ),
{
    assert(fs@[i] == fs@[i]);
    assert forall|k: int| 0 <= k < i implies arity_defect(
        path.push((#[trigger] fs@[k]).name@),
        ra@[find_entry(ra@, fs@[k].name@)].node,
        es@[find_entry(es@, fs@[k].name@)].node,
        fs@[k].shape,
    ) is None by {
        assert(!arity_bad(path, ra@, es@, fs@, k));
    }
    let c = choose|c: int|
        0 <= c < fs@.len() && arity_defect(
            path.push((#[trigger] fs@[c]).name@),
            ra@[find_entry(ra@, fs@[c].name@)].node,
            es@[find_entry(es@, fs@[c].name@)].node,
            fs@[c].shape,
        ) is Some && forall|k: int|
            0 <= k < c ==> arity_defect(
                path.push((#[trigger] fs@[k]).name@),
                ra@[find_entry(ra@, fs@[k].name@)].node,
                es@[find_entry(es@, fs@[k].name@)].node,
                fs@[k].shape,
            ) is None;
    if c < i {
        assert(!arity_bad(path, ra@, es@, fs@, c));
    } else if c > i {
        assert(fs@[i] == fs@[i]);
    }
}

proof fn lemma_arity_group_sound(path: Seq<Seq<char>>, ra: Vec<Entry>, es: Vec<Entry>, fs: Vec<Field>)
    requires
        forall|i: int| 0 <= i < fs@.len() ==> !arity_bad(path, ra@, es@, fs@, i),
    ensures
        arity_defect(path, Node::Group(ra), Node::Group(es), Shape::Group(fs)) is None,
{
    assert forall|i: int| 0 <= i < fs@.len() implies !(arity_defect(
        path.push((#[trigger] fs@[i]).name@),
        ra@[find_entry(ra@, fs@[i].name@)].node,
        es@[find_entry(es@, fs@[i].name@)].node,
        fs@[i].shape,
    ) is Some) by {
        assert(!arity_bad(path, ra@, es@, fs@, i));
    }
}

/// The argument count of a message, saturated at `usize::MAX`.
pub fn arity(t: &MessageToken) -> (r: usize)
    ensures
        r == (if t.spec_args() > usize::MAX {
            usize::MAX as nat
        } else {
            t.spec_args()
        }),
{
    match t.placeholder_max {
        Some(m) => if m < usize::MAX {
            m + 1
        } else {
            usize::MAX
        },
        None => 0,
    }
}

fn find_entry_exec(es: &Vec<Entry>, name: &str) -> (r: Option<usize>)
    ensures
        match r {
            Some(j) => find_entry(es@, name@) == j && j < es@.len(),
            None => find_entry(es@, name@) == -1,
        },
{
    let mut k: usize = 0;
    while k < es.len()
        invariant
            k <= es@.len(),
            find_entry(es@, name@) == find_entry_from(es@, name@, k as int),
        decreases es@.len() - k,
    {
        if same_text(es[k].key.as_str(), name) {
            return Some(k);
        }
        k = k + 1;
    }
    None
}

fn has_field_exec(fs: &Vec<Field>, name: &str) -> (r: bool)
    ensures
        r == has_field(fs@, name@),
{
    let mut k: usize = 0;
    while k < fs.len()
        invariant
            k <= fs@.len(),
            forall|i: int| 0 <= i < k ==> (#[trigger] fs@[i]).name@ != name@,
        decreases fs@.len() - k,
    {
        if same_text(fs[k].name.as_str(), name) {
            return true;
        }
        k = k + 1;
    }
    false
}

/// A copy of the key path `path`.
fn key_of(path: &Vec<String>) -> (r: Vec<String>)
    ensures
        key_view(r@) == key_view(path@),
{
    let mut key: Vec<String> = Vec::new();
    let mut k: usize = 0;
    while k < path.len()
        invariant
            k <= path@.len(),
            key@.len() == k,
            forall|m: int| 0 <= m < k ==> key@[m]@ == path@[m]@,
        decreases path@.len() - k,
    {
        let c = path[k].clone();
        key.push(c);
        k = k + 1;
    }
    assert(key_view(key@) =~= key_view(path@));
    key
}

/// The key path `path` followed by `name`.
fn key_at(path: &Vec<String>, name: &String) -> (r: Vec<String>)
    ensures
        key_view(r@) == key_view(path@).push(name@),
{
    let mut key = key_of(path);
    key.push(name.clone());
    assert(key_view(key@) =~= key_view(path@).push(name@));
    key
}

/// The key path that `path` holds.
fn key_here(path: &Hierarchy) -> (r: Vec<String>)
    ensures
        key_view(r@) == path.spec_items(),
{
    let v = path.as_vec();
    assert(key_view(v@) =~= path.spec_items());
    key_of(v)
}

/// The key path that `path` holds, followed by `name`.
fn key_below(path: &Hierarchy, name: &String) -> (r: Vec<String>)
    ensures
        key_view(r@) == path.spec_items().push(name@),
{
    let v = path.as_vec();
    assert(key_view(v@) =~= path.spec_items());
    key_at(v, name)
}

/// Checks that the tree `n` has exactly the shape `s`; `path` is the key of
/// `n`. The error is the first defect, as [`node_defect`] orders them.
#[verifier::rlimit(60)]
pub fn check_node(lang: &String, path: &mut Hierarchy, n: &Node, s: &Shape) -> (r: Result<
    (),
    TreeError,
>)
    ensures
        r is Ok <==> node_ok(*n, *s),
        r is Ok <==> node_defect(old(path).spec_items(), *n, *s) is None,
        r matches Err(e) ==> e.spec_lang() == lang@ && Some(e.defect()) == node_defect(
            old(path).spec_items(),
            *n,
            *s,
        ),
        final(path).spec_items() == old(path).spec_items(),
    decreases s,
{
    let ghost p0 = path.spec_items();
    match s {
        Shape::Leaf => match n {
            Node::Leaf(_) => Ok(()),
            Node::Group(_) => Err(
                TreeError::UnexpectedNesting { lang: lang.clone(), key: key_here(path) },
            ),
        },
        Shape::Group(fs) => match n {
            Node::Leaf(_) => Err(
                TreeError::ExpectedGroup { lang: lang.clone(), key: key_here(path) },
            ),
            Node::Group(es) => {
                let mut i: usize = 0;
                while i < fs.len()
                    invariant
                        i <= fs@.len(),
                        path.spec_items() == p0,
                        p0 == old(path).spec_items(),
                        *s == Shape::Group(*fs),
                        *n == Node::Group(*es),
                        forall|m: int|
                            0 <= m < i ==> {
                                let j = find_entry(es@, (#[trigger] fs@[m]).name@);
                                0 <= j && node_ok(es@[j].node, fs@[m].shape)
                            },
                        forall|m: int| 0 <= m < i ==> !field_bad(p0, es@, fs@, m),
                    decreases fs@.len() - i,
                {
                    let field = &fs[i];
                    assert(fs@[i as int] == *field);
                    let j = match find_entry_exec(es, field.name.as_str()) {
                        Some(j) => j,
                        None => {
                            assert(find_entry(es@, fs@[i as int].name@) == -1);
                            proof {
                                lemma_first_bad_field(p0, *es, *fs, i as int);
                            }
                            return Err(TreeError::MissingKey {
                                lang: lang.clone(),
                                key: key_below(path, &field.name),
                            });
                        },
                    };
                    proof {
                        let ghost nn = *s;
                        let ghost v = nn->Group_0;
                        assert(v == *fs);
                        assert(decreases_to!(nn => v));
                        assert(decreases_to!(v => v@));
                        assert(decreases_to!(v@ => v@[i as int]));
                        assert(decreases_to!(v@[i as int] => v@[i as int].shape));
                    }
                    path.push(field.name.clone());
                    let sub = check_node(lang, path, &es[j].node, &field.shape);
                    path.pop();
                    assert(path.spec_items() =~= p0);
                    if sub.is_err() {
                        proof {
                            lemma_first_bad_field(p0, *es, *fs, i as int);
                        }
                        return sub;
                    }
                    i = i + 1;
                }
                let mut j: usize = 0;
                while j < es.len()
                    invariant
                        j <= es@.len(),
                        path.spec_items() == p0,
                        p0 == old(path).spec_items(),
                        *s == Shape::Group(*fs),
                        *n == Node::Group(*es),
                        forall|m: int|
                            0 <= m < fs@.len() ==> {
                                let k = find_entry(es@, (#[trigger] fs@[m]).name@);
                                0 <= k && node_ok(es@[k].node, fs@[m].shape)
                            },
                        forall|m: int| 0 <= m < fs@.len() ==> !field_bad(p0, es@, fs@, m),
                        forall|m: int| 0 <= m < j ==> has_field(fs@, (#[trigger] es@[m]).key@),
                    decreases es@.len() - j,
                {
                    if !has_field_exec(fs, es[j].key.as_str()) {
                        assert(!has_field(fs@, es@[j as int].key@));
                        proof {
                            lemma_first_extra_key(p0, *es, *fs, j as int);
                        }
                        return Err(TreeError::UnexpectedNesting {
                            lang: lang.clone(),
                            key: key_below(path, &es[j].key),
                        });
                    }
                    j = j + 1;
                }
                proof {
                    lemma_group_sound(p0, *es, *fs);
                }
                Ok(())
            },
        },
    }
}

/// Checks that along the shape `s` every leaf of `n` takes as many arguments
/// as the leaf at the same place in `reference`; both trees have the shape.
/// The error is the first mismatch in the schema's order, with the reference
/// count as `expected` and that of `n` as `actual`.
pub fn check_arity(
    lang: &String,
    path: &mut Hierarchy,
    reference: &Node,
    n: &Node,
    s: &Shape,
) -> (r: Result<(), TreeError>)
    requires
        node_ok(*reference, *s),
        node_ok(*n, *s),
    ensures
        r is Ok <==> arity_ok(*reference, *n, *s),
        r is Ok <==> arity_defect(old(path).spec_items(), *reference, *n, *s) is None,
        r matches Err(e) ==> e.spec_lang() == lang@ && Some(e.defect()) == arity_defect(
            old(path).spec_items(),
            *reference,
            *n,
            *s,
        ),
        final(path).spec_items() == old(path).spec_items(),
    decreases s,
{
    let ghost p0 = path.spec_items();
    match s {
        Shape::Leaf => match (reference, n) {
            (Node::Leaf(a), Node::Leaf(b)) => {
                if a.placeholder_max == b.placeholder_max {
                    Ok(())
                } else {
                    Err(TreeError::ArityMismatch {
                        lang: lang.clone(),
                        key: key_here(path),
                        expected: arity(a),
                        actual: arity(b),
                    })
                }
            },
            _ => Ok(()),
        },
        Shape::Group(fs) => match (reference, n) {
            (Node::Group(ra), Node::Group(es)) => {
                let mut i: usize = 0;
                while i < fs.len()
                    invariant
                        i <= fs@.len(),
                        path.spec_items() == p0,
                        p0 == old(path).spec_items(),
                        node_ok(*reference, *s),
                        node_ok(*n, *s),
                        *s == Shape::Group(*fs),
                        *reference == Node::Group(*ra),
                        *n == Node::Group(*es),
                        forall|m: int|
                            0 <= m < i ==> {
                                let p = find_entry(ra@, (#[trigger] fs@[m]).name@);
                                let q = find_entry(es@, fs@[m].name@);
                                0 <= p && 0 <= q && arity_ok(
                                    ra@[p].node,
                                    es@[q].node,
                                    fs@[m].shape,
                                )
                            },
                        forall|m: int| 0 <= m < i ==> !arity_bad(p0, ra@, es@, fs@, m),
                    decreases fs@.len() - i,
                {
                    let field = &fs[i];
                    assert(fs@[i as int] == *field);
                    assert(0 <= find_entry(ra@, fs@[i as int].name@));
                    assert(0 <= find_entry(es@, fs@[i as int].name@));
                    let p = match find_entry_exec(ra, field.name.as_str()) {
                        Some(p) => p,
                        None => {
                            return Ok(());
                        },
                    };
                    let q = match find_entry_exec(es, field.name.as_str()) {
                        Some(q) => q,
                        None => {
                            return Ok(());
                        },
                    };
                    path.push(field.name.clone());
                    let sub = check_arity(lang, path, &ra[p].node, &es[q].node, &field.shape);
                    path.pop();
                    assert(path.spec_items() =~= p0);
                    if sub.is_err() {
                        proof {
                            lemma_first_arity_bad(p0, *ra, *es, *fs, i as int);
                        }
                        return sub;
                    }
                    i = i + 1;
                }
                proof {
                    lemma_arity_group_sound(p0, *ra, *es, *fs);
                }
                Ok(())
            },
            _ => Ok(()),
        },
    }
}

/// In every group of `n`, recursively, no two entries share a key.
pub open spec fn keys_unique(n: Node) -> bool
    decreases n,
{
    match n {
        Node::Leaf(_) => true,
        Node::Group(es) => {
            &&& forall|i: int, j: int|
                0 <= i < j < es@.len() ==> (#[trigger] es@[i]).key@ != (#[trigger] es@[j]).key@
            &&& forall|i: int| 0 <= i < es@.len() ==> keys_unique((#[trigger] es@[i]).node)
        },
    }
}

proof fn lemma_find_own_key(es: Seq<Entry>, i: int, k: int)
    requires
        0 <= k <= i < es.len(),
        forall|a: int, b: int| 0 <= a < b < es.len() ==> (#[trigger] es[a]).key@ != (#[trigger] es[b]).key@,
    ensures
        find_entry_from(es, es[i].key@, k) == i,
    decreases i - k,
{
    if k < i {
        assert(es[k].key@ != es[i].key@);
        lemma_find_own_key(es, i, k + 1);
    }
}

/// The shape of a tree: a leaf for each message, a group of the same keys for
/// each group. A tree whose keys are unique in each group has its own shape.
pub fn shape_of(n: &Node) -> (r: Shape)
    ensures
        keys_unique(*n) ==> node_ok(*n, r),
    decreases n,
{
    match n {
        Node::Leaf(_) => Shape::Leaf,
        Node::Group(es) => {
            let mut fs: Vec<Field> = Vec::new();
            let mut i: usize = 0;
            while i < es.len()
                invariant
                    *n == Node::Group(*es),
                    i <= es@.len(),
                    fs@.len() == i,
                    forall|m: int| 0 <= m < i ==> (#[trigger] fs@[m]).name@ == es@[m].key@,
                    forall|m: int|
                        0 <= m < i ==> (keys_unique(es@[m].node) ==> node_ok(
                            es@[m].node,
                            (#[trigger] fs@[m]).shape,
                        )),
                decreases es@.len() - i,
            {
                let entry = &es[i];
                proof {
                    let ghost nn = *n;
                    let ghost v = nn->Group_0;
                    assert(v == *es);
                    assert(decreases_to!(nn => v));
                    assert(decreases_to!(v => v@));
                    assert(decreases_to!(v@ => v@[i as int]));
                    assert(decreases_to!(v@[i as int] => v@[i as int].node));
                }
                let shape = shape_of(&entry.node);
                fs.push(Field { name: entry.key.clone(), shape });
                i = i + 1;
            }
            let r = Shape::Group(fs);
            proof {
                if keys_unique(*n) {
                    assert forall|m: int| 0 <= m < fs@.len() implies {
                        let j = find_entry(es@, (#[trigger] fs@[m]).name@);
                        0 <= j && node_ok(es@[j].node, fs@[m].shape)
                    } by {
                        lemma_find_own_key(es@, m, 0);
                        assert(keys_unique(es@[m].node));
                    }
                    assert forall|j: int| 0 <= j < es@.len() implies has_field(
                        fs@,
                        (#[trigger] es@[j]).key@,
                    ) by {
                        assert(fs@[j].name@ == es@[j].key@);
                    }
                }
            }
            r
        },
    }
}

/// A decoded locale file for one language: template texts and keyed maps, in
/// file order.
#[derive(Debug)]
pub enum Source {
    Text(String),
    Group(Vec<(String, Source)>),
}

/// A template of a locale file that cannot become a message.
#[derive(Debug, Clone)]
pub struct BuildError {
    pub lang: String,
    pub key: Vec<String>,
    pub error: MessageValueError,
}

/// What is wrong with the template `t` of a locale file, if anything: it
/// does not parse, or its argument count cannot be inferred, or it holds a
/// named reference.
pub open spec fn text_error(t: Seq<char>) -> Option<MessageValueError> {
    match parse_spec(t) {
        Err(_) => Some(MessageValueError::EmptyPlaceholder),
        Ok(ps) => match infer_error(ps) {
            Some(e) => Some(e),
            None => if numbered_only(ps) {
                None
            } else {
                Some(MessageValueError::NamedReference)
            },
        },
    }
}

/// The first bad template of `s` in source order, with its key path (from
/// `path`, the key of `s`) and what is wrong with it.
pub open spec fn first_bad_text(path: Seq<Seq<char>>, s: Source) -> Option<
    (Seq<Seq<char>>, MessageValueError),
>
    decreases s,
{
    match s {
        Source::Text(t) => match text_error(t@) {
            Some(e) => Some((path, e)),
            None => None,
        },
        Source::Group(es) => if exists|i: int|
            0 <= i < es@.len() && first_bad_text(path.push((#[trigger] es@[i]).0@), es@[i].1) is Some
                && forall|k: int|
                0 <= k < i ==> first_bad_text(path.push((#[trigger] es@[k]).0@), es@[k].1) is None {
            let i = choose|i: int|
                0 <= i < es@.len() && first_bad_text(path.push((#[trigger] es@[i]).0@), es@[i].1)
                    is Some && forall|k: int|
                    0 <= k < i ==> first_bad_text(path.push((#[trigger] es@[k]).0@), es@[k].1)
                        is None;
            first_bad_text(path.push(es@[i].0@), es@[i].1)
        } else {
            None
        },
    }
}

/// The entry at `i` holds the first bad template of the group `es`.
pub proof fn lemma_first_bad_entry(path: Seq<Seq<char>>, es: Vec<(String, Source)>, i: int)
    requires
        0 <= i < es@.len(),
        first_bad_text(path.push(es@[i].0@), es@[i].1) is Some,
        forall|k: int| 0 <= k < i ==> first_bad_text(path.push(es@[k].0@), es@[k].1) is None,
    ensures
        first_bad_text(path, Source::Group(es)) == first_bad_text(path.push(es@[i].0@), es@[i].1),
{
    assert(es@[i] == es@[i]);
    assert forall|k: int| 0 <= k < i implies first_bad_text(
        path.push((#[trigger] es@[k]).0@),
        es@[k].1,
    ) is None by {}
    let c = choose|c: int|
        0 <= c < es@.len() && first_bad_text(path.push((#[trigger] es@[c]).0@), es@[c].1) is Some
            && forall|k: int|
            0 <= k < c ==> first_bad_text(path.push((#[trigger] es@[k]).0@), es@[k].1) is None;
    if c < i {
        assert(first_bad_text(path.push(es@[c].0@), es@[c].1) is None);
    } else if c > i {
        assert(es@[i] == es@[i]);
    }
}

proof fn lemma_good_group(path: Seq<Seq<char>>, es: Vec<(String, Source)>)
    requires
        forall|k: int| 0 <= k < es@.len() ==> first_bad_text(path.push(es@[k].0@), es@[k].1) is None,
    ensures
        first_bad_text(path, Source::Group(es)) is None,
{
    assert forall|i: int| 0 <= i < es@.len() implies first_bad_text(
        path.push((#[trigger] es@[i]).0@),
        es@[i].1,
    ) is None by {}
}

/// `n` is the tree of `s`: the same keys in the same order, and at each text
/// the message [`MessageToken::from_str`] gives for it.
pub open spec fn built_from(s: Source, n: Node) -> bool
    decreases s,
{
    match s {
        Source::Text(t) => match n {
            Node::Leaf(tok) => parse_spec(t@) matches Ok(ps) && pieces_of(tok.values@) == ps
                && tok.placeholder_max == max_id(piece_ids(ps)),
            Node::Group(_) => false,
        },
        Source::Group(es) => match n {
            Node::Group(ns) => es@.len() == ns@.len() && forall|i: int|
                0 <= i < es@.len() ==> (#[trigger] ns@[i]).key@ == es@[i].0@ && built_from(
                    es@[i].1,
                    ns@[i].node,
                ),
            Node::Leaf(_) => false,
        },
    }
}

/// Builds the message tree of one language from its decoded file; `path` is
/// the key of `s`. An error names the language, the key path of the template
/// and what is wrong with it.
pub fn build_node(lang: &String, path: &mut Hierarchy, s: &Source) -> (r: Result<Node, BuildError>)
    ensures
        r is Ok <==> first_bad_text(old(path).spec_items(), *s) is None,
        r matches Ok(n) ==> built_from(*s, n),
        r matches Err(e) ==> e.lang@ == lang@ && first_bad_text(old(path).spec_items(), *s) == Some(
            (key_view(e.key@), e.error),
        ),
        final(path).spec_items() == old(path).spec_items(),
    decreases s,
{
    match s {
        Source::Text(t) => match MessageToken::from_str(t.as_str()) {
            Ok(tok) => if has_named_reference(&tok.values) {
                Err(
                    BuildError {
                        lang: lang.clone(),
                        key: key_here(path),
                        error: MessageValueError::NamedReference,
                    },
                )
            } else {
                Ok(Node::Leaf(tok))
            },
            Err(error) => Err(BuildError { lang: lang.clone(), key: key_here(path), error }),
        },
        Source::Group(es) => {
            let ghost p0 = path.spec_items();
            let mut out: Vec<Entry> = Vec::new();
            let mut i: usize = 0;
            while i < es.len()
                invariant
                    *s == Source::Group(*es),
                    i <= es@.len(),
                    out@.len() == i,
                    path.spec_items() == p0,
                    p0 == old(path).spec_items(),
                    forall|m: int|
                        0 <= m < i ==> first_bad_text(p0.push((#[trigger] es@[m]).0@), es@[m].1)
                            is None,
                    forall|m: int|
                        0 <= m < i ==> (#[trigger] out@[m]).key@ == es@[m].0@ && built_from(
                            es@[m].1,
                            out@[m].node,
                        ),
                decreases es@.len() - i,
            {
                let entry = &es[i];
                proof {
                    let ghost ss = *s;
                    let ghost v = ss->Group_0;
                    assert(v == *es);
                    assert(decreases_to!(ss => v));
                    assert(decreases_to!(v => v@));
                    assert(decreases_to!(v@ => v@[i as int]));
                    assert(decreases_to!(v@[i as int] => v@[i as int].1));
                }
                path.push(entry.0.clone());
                let sub = build_node(lang, path, &entry.1);
                path.pop();
                assert(path.spec_items() =~= p0);
                match sub {
                    Ok(node) => {
                        out.push(Entry { key: entry.0.clone(), node });
                    },
                    Err(e) => {
                        proof {
                            lemma_first_bad_entry(p0, *es, i as int);
                        }
                        return Err(e);
                    },
                }
                i = i + 1;
            }
            proof {
                lemma_good_group(p0, *es);
            }
            Ok(Node::Group(out))
        },
    }
}

/// One language's message tree.
#[derive(Debug)]
pub struct LangTree {
    pub lang: String,
    pub root: Node,
}

/// The tree at position `l` has the shape of the schema, and its messages take
/// as many arguments as those of the first language.
pub open spec fn lang_ok(schema: Shape, trees: Seq<LangTree>, l: int) -> bool {
    node_ok(trees[l].root, schema) && arity_ok(trees[0].root, trees[l].root, schema)
}

/// Every language's tree has the shape of the schema, and its messages take
/// as many arguments as those of the first language.
pub open spec fn table_ok(schema: Shape, trees: Seq<LangTree>) -> bool {
    forall|l: int| 0 <= l < trees.len() ==> #[trigger] lang_ok(schema, trees, l)
}

/// The first entry keyed `name` among the top-level entries of `n` is a
/// message, taking `args` arguments.
pub open spec fn top_leaf_args(n: Node, name: Seq<char>, args: nat) -> bool {
    match n {
        Node::Group(es) => {
            let j = find_entry(es@, name);
            0 <= j < es@.len() && (es@[j].node matches Node::Leaf(t) && t.spec_args() == args)
        },
        Node::Leaf(_) => false,
    }
}

/// A table in which the first language and another one give a top-level
/// message of the schema different argument counts is never valid: no count
/// is picked for it.
pub proof fn lemma_arity_disagreement_refused(
    schema: Shape,
    trees: Seq<LangTree>,
    l: int,
    i: int,
    a: nat,
    b: nat,
)
    requires
        0 < l < trees.len(),
        schema matches Shape::Group(fs) && 0 <= i < fs@.len() && fs@[i].shape is Leaf,
        top_leaf_args(trees[0].root, schema->Group_0@[i].name@, a),
        top_leaf_args(trees[l].root, schema->Group_0@[i].name@, b),
        a != b,
    ensures
        !table_ok(schema, trees),
{
    if table_ok(schema, trees) {
        assert(lang_ok(schema, trees, l));
        let fs = schema->Group_0;
        let name = fs@[i].name@;
        let ra = trees[0].root->Group_0;
        let es = trees[l].root->Group_0;
        let p = find_entry(ra@, name);
        let q = find_entry(es@, name);
        assert(arity_ok(trees[0].root, trees[l].root, schema));
        assert(arity_ok(ra@[p].node, es@[q].node, fs@[i].shape));
        assert(false);
    }
}

/// When a language has the schema's shape and the first message in schema
/// order whose argument count differs from the first language's is the
/// top-level message `name`, the defect reported for that language is an
/// arity mismatch at `[name]`, with the first language's count as expected
/// and its own as actual.
pub proof fn lemma_arity_mismatch_reported(
    fs: Vec<Field>,
    trees: Seq<LangTree>,
    l: int,
    i: int,
    ra: Vec<Entry>,
    es: Vec<Entry>,
    a: MessageToken,
    b: MessageToken,
)
    requires
        0 < l < trees.len(),
        trees[0].root == Node::Group(ra),
        trees[l].root == Node::Group(es),
        node_defect(Seq::empty(), trees[l].root, Shape::Group(fs)) is None,
        0 <= i < fs@.len(),
        fs@[i].shape is Leaf,
        ra@[find_entry(ra@, fs@[i].name@)].node == Node::Leaf(a),
        es@[find_entry(es@, fs@[i].name@)].node == Node::Leaf(b),
        a.spec_args() != b.spec_args(),
        forall|k: int| 0 <= k < i ==> !arity_bad(Seq::empty(), ra@, es@, fs@, k),
    ensures
        lang_defect(Shape::Group(fs), trees, l) == Some(
            Defect::ArityMismatch(seq![fs@[i].name@], sat_args(a), sat_args(b)),
        ),
{
    let p = Seq::<Seq<char>>::empty().push(fs@[i].name@);
    assert(p == seq![fs@[i].name@]);
    assert(arity_defect(p, Node::Leaf(a), Node::Leaf(b), Shape::Leaf) == Some(
        Defect::ArityMismatch(p, sat_args(a), sat_args(b)),
    ));
    assert(fs@[i].shape == Shape::Leaf);
    lemma_first_arity_bad(Seq::empty(), ra, es, fs, i);
}

/// A table in which some language has a top-level key that the schema does
/// not name is never valid.
pub proof fn lemma_unknown_key_refused(schema: Shape, trees: Seq<LangTree>, l: int, j: int)
    requires
        0 <= l < trees.len(),
        schema is Group,
        trees[l].root matches Node::Group(es) && 0 <= j < es@.len() && !has_field(
            schema->Group_0@,
            es@[j].key@,
        ),
    ensures
        !table_ok(schema, trees),
{
    if table_ok(schema, trees) {
        assert(lang_ok(schema, trees, l));
        let es = trees[l].root->Group_0;
        assert(es@[j] == es@[j]);
    }
}

/// The node reached from `n` by following the keys of `path`.
pub open spec fn node_at(n: Node, path: Seq<Seq<char>>) -> Option<Node>
    decreases path.len(),
{
    if path.len() == 0 {
        Some(n)
    } else {
        match n {
            Node::Group(es) => {
                let j = find_entry(es@, path[0]);
                if 0 <= j < es@.len() {
                    node_at(es@[j].node, path.drop_first())
                } else {
                    None
                }
            },
            Node::Leaf(_) => None,
        }
    }
}

/// The keys of a path, as texts.
pub open spec fn path_texts(path: Seq<&str>) -> Seq<Seq<char>> {
    path.map_values(|k: &str| k@)
}

/// The node reached from `n` by following the keys of `path`, if any.
pub fn lookup<'a>(n: &'a Node, path: &[&str]) -> (r: Option<&'a Node>)
    ensures
        match r {
            Some(x) => node_at(*n, path_texts(path@)) == Some(*x),
            None => node_at(*n, path_texts(path@)) is None,
        },
{
    let ghost p = path_texts(path@);
    let mut cur: &Node = n;
    let mut k: usize = 0;
    assert(p.skip(0) == p);
    while k < path.len()
        invariant
            p == path_texts(path@),
            k <= path@.len(),
            node_at(*n, p) == node_at(*cur, p.skip(k as int)),
        decreases path@.len() - k,
    {
        let ghost rest = p.skip(k as int);
        assert(rest.drop_first() == p.skip(k + 1));
        assert(rest[0] == path@[k as int]@);
        match cur {
            Node::Group(es) => match find_entry_exec(es, path[k]) {
                Some(j) => {
                    cur = &es[j].node;
                },
                None => {
                    return None;
                },
            },
            Node::Leaf(_) => {
                return None;
            },
        }
        k = k + 1;
    }
    assert(p.skip(path@.len() as int).len() == 0);
    Some(cur)
}

/// Checks every tree in order; the error is the first defect of the first
/// failing language.
fn check_all(schema: &Shape, trees: &Vec<LangTree>) -> (r: Result<(), TreeError>)
    ensures
        r is Ok <==> table_ok(*schema, trees@),
        r matches Err(e) ==> exists|l: int|
            0 <= l < trees@.len() && e.spec_lang() == trees@[l].lang@ && Some(e.defect())
                == lang_defect(*schema, trees@, l) && !#[trigger] lang_ok(*schema, trees@, l)
                && forall|m: int| 0 <= m < l ==> lang_ok(*schema, trees@, m),
{
    let mut l: usize = 0;
    while l < trees.len()
        invariant
            l <= trees@.len(),
            forall|m: int| 0 <= m < l ==> #[trigger] lang_ok(*schema, trees@, m),
        decreases trees@.len() - l,
    {
        match check_lang(schema, trees, l) {
            Ok(()) => {},
            Err(e) => {
                return Err(e);
            },
        }
        l = l + 1;
    }
    Ok(())
}

/// No two trees are given for the same language.
pub open spec fn langs_unique(trees: Seq<LangTree>) -> bool {
    forall|i: int, j: int|
        0 <= i < j < trees.len() ==> (#[trigger] trees[i]).lang@ != (#[trigger] trees[j]).lang@
}

/// The tree at `l` is the first whose language repeats an earlier tree's.
pub open spec fn first_repeat(trees: Seq<LangTree>, l: int) -> bool {
    &&& 0 <= l < trees.len()
    &&& exists|k: int| 0 <= k < l && (#[trigger] trees[k]).lang@ == trees[l].lang@
    &&& langs_unique(trees.take(l))
}

/// The position of the first tree whose language repeats an earlier one's.
fn first_repeated(trees: &Vec<LangTree>) -> (r: Option<usize>)
    ensures
        r is None <==> langs_unique(trees@),
        r matches Some(l) ==> first_repeat(trees@, l as int),
{
    let mut l: usize = 0;
    while l < trees.len()
        invariant
            l <= trees@.len(),
            langs_unique(trees@.take(l as int)),
        decreases trees@.len() - l,
    {
        let mut k: usize = 0;
        while k < l
            invariant
                l < trees@.len(),
                k <= l,
                langs_unique(trees@.take(l as int)),
                forall|m: int| 0 <= m < k ==> (#[trigger] trees@[m]).lang@ != trees@[l as int].lang@,
            decreases l - k,
        {
            if same_text(trees[k].lang.as_str(), trees[l].lang.as_str()) {
                assert(trees@[k as int].lang@ == trees@[l as int].lang@);
                return Some(l);
            }
            k = k + 1;
        }
        assert forall|i: int, j: int| 0 <= i < j < l + 1 implies (#[trigger] trees@.take(l + 1)[i]).lang@
            != (#[trigger] trees@.take(l + 1)[j]).lang@ by {
            if j < l {
                assert(trees@.take(l as int)[i] == trees@[i]);
                assert(trees@.take(l as int)[j] == trees@[j]);
            } else {
                assert(trees@[i] == trees@[i]);
            }
        }
        l = l + 1;
    }
    assert(trees@.take(trees@.len() as int) == trees@);
    None
}

/// The first defect of the tree at position `l`: of its shape, else of its
/// argument counts against the first language.
pub open spec fn lang_defect(schema: Shape, trees: Seq<LangTree>, l: int) -> Option<Defect> {
    match node_defect(Seq::empty(), trees[l].root, schema) {
        Some(d) => Some(d),
        None => arity_defect(Seq::empty(), trees[0].root, trees[l].root, schema),
    }
}

/// Checks the tree at position `l`; the first tree is already known good.
fn check_lang(schema: &Shape, trees: &Vec<LangTree>, l: usize) -> (r: Result<(), TreeError>)
    requires
        l < trees@.len(),
        l == 0 || lang_ok(*schema, trees@, 0),
    ensures
        r is Ok <==> lang_ok(*schema, trees@, l as int),
        r matches Err(e) ==> e.spec_lang() == trees@[l as int].lang@ && Some(e.defect())
            == lang_defect(*schema, trees@, l as int),
{
    let tree = &trees[l];
    let mut path = Hierarchy::new();
    check_node(&tree.lang, &mut path, &tree.root, schema)?;
    let first = &trees[0];
    assert(node_ok(trees@[0].root, *schema));
    check_arity(&tree.lang, &mut path, &first.root, &tree.root, schema)
}

/// The message trees of all languages, checked against one schema: every
/// tree has the schema's shape and every message takes as many arguments in
/// each language.
pub struct LocaleTable {
    schema: Shape,
    trees: Vec<LangTree>,
}

impl LocaleTable {
    pub closed spec fn spec_schema(&self) -> Shape {
        self.schema
    }

    pub closed spec fn spec_trees(&self) -> Seq<LangTree> {
        self.trees@
    }

    pub open spec fn wf(&self) -> bool {
        langs_unique(self.spec_trees()) && table_ok(self.spec_schema(), self.spec_trees())
    }

    /// Checks every language's tree against the schema, then the argument
    /// counts against the first language; the first defect is reported and
    /// no table is built.
    pub fn build(schema: Shape, trees: Vec<LangTree>) -> (r: Result<Self, TreeError>)
        ensures
            r is Ok <==> langs_unique(trees@) && table_ok(schema, trees@),
            r matches Ok(t) ==> t.spec_schema() == schema && t.spec_trees() == trees@,
            r matches Err(e) ==> !langs_unique(trees@) ==> (e is DuplicateLanguage && exists|l: int|
                #[trigger] first_repeat(trees@, l) && e.spec_lang() == trees@[l].lang@),
            r matches Err(e) ==> langs_unique(trees@) ==> exists|l: int|
                0 <= l < trees@.len() && e.spec_lang() == trees@[l].lang@ && Some(e.defect())
                    == lang_defect(schema, trees@, l) && !#[trigger] lang_ok(schema, trees@, l)
                    && forall|m: int| 0 <= m < l ==> lang_ok(schema, trees@, m),
    {
        match first_repeated(&trees) {
            Some(l) => {
                return Err(TreeError::DuplicateLanguage { lang: trees[l].lang.clone() });
            },
            None => {},
        }
        match check_all(&schema, &trees) {
            Ok(()) => Ok(LocaleTable { schema, trees }),
            Err(e) => Err(e),
        }
    }

    /// The number of languages.
    pub fn len(&self) -> (r: usize)
        ensures
            r == self.spec_trees().len(),
    {
        self.trees.len()
    }

    /// The tree of the language at position `lang`.
    pub fn tree(&self, lang: usize) -> (r: &LangTree)
        requires
            lang < self.spec_trees().len(),
        ensures
            *r == self.spec_trees()[lang as int],
    {
        &self.trees[lang]
    }

    /// The message at `path` in the language at position `lang`, with its
    /// arguments put in; nothing if there is no message there or the number of
    /// arguments is not the message's.
    pub fn format(&self, lang: usize, path: &[&str], args: &[&str]) -> (r: Option<String>)
        ensures
            r is Some <==> lang < self.spec_trees().len() && (node_at(
                self.spec_trees()[lang as int].root,
                path_texts(path@),
            ) matches Some(Node::Leaf(t)) && t.spec_args() == args@.len()),
            r matches Some(s) ==> (node_at(
                self.spec_trees()[lang as int].root,
                path_texts(path@),
            ) matches Some(Node::Leaf(t)) && s@ == render(pieces_of(t.values@), arg_texts(args@))),
    {
        if lang >= self.trees.len() {
            return None;
        }
        match lookup(&self.trees[lang].root, path) {
            Some(Node::Leaf(t)) => {
                let same = match t.placeholder_max {
                    Some(m) => m < args.len() && m + 1 == args.len(),
                    None => args.len() == 0,
                };
                if same {
                    Some(t.format(args))
                } else {
                    None
                }
            },
            _ => None,
        }
    }
}

} // verus!
