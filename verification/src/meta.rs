//! Reading an option from the items of a `display(..)` list.
//!
//! The list is given as plain values: each item has a key and either
//! nothing, `= literal`, or a parenthesised list of `key = literal` pairs.
//! The known forms are `group = "Name"`, `group(name = "Name", id = N)`,
//! `rename = "Name"` and `extra = "literal"`.

use vstd::prelude::*;
use vstd::string::*;
use crate::attr::{Attr, AttrView, Group, GroupView};

verus! {

/// A literal of an option.
#[derive(Debug)]
pub enum Literal {
    Str(String),
    Int(u128),
}

/// `key = value` inside the parentheses of an item.
#[derive(Debug)]
pub struct Pair {
    pub key: String,
    pub value: Literal,
}

/// What follows the key of an item.
#[derive(Debug)]
pub enum MetaForm {
    /// Nothing.
    Bare,
    /// `= literal`
    Value(Literal),
    /// `(key = literal, ..)`
    List(Vec<Pair>),
}

/// One item of the list.
#[derive(Debug)]
pub struct Meta {
    pub key: String,
    pub form: MetaForm,
}

/// Why a list holds no option.
#[derive(Debug, Clone, Copy, PartialEq, Eq, Structural)]
pub enum MetaError {
    /// The attribute is not `display`.
    NotDisplay,
    /// The key is none of `group`, `rename`, `extra`.
    UnknownOption,
    /// A key inside `group(..)` is neither `name` nor `id`.
    UnknownGroupOption,
    /// `group(..)` gives no name.
    GroupWithoutName,
    /// A string literal was expected.
    ExpectedString,
    /// An integer literal was expected.
    ExpectedInteger,
    /// `= literal` was expected after the key.
    ExpectedValue,
    /// The list is empty.
    NoOption,
}

impl MetaError {
    /// The error in words.
    pub open spec fn message_text(&self) -> Seq<char> {
        match self {
            MetaError::NotDisplay => "only a `display` attribute holds an option"@,
            MetaError::UnknownOption => "unsupported attribute given to `display()`, supported attributes are `group`, `rename`, and `extra`"@,
            MetaError::UnknownGroupOption => "unsupported attribute under group, only supported values are `name` and `id`"@,
            MetaError::GroupWithoutName => "group attribute requires to be either `group = \"name\"` or `group(name = \"name\")`"@,
            MetaError::ExpectedString => "expected a string literal"@,
            MetaError::ExpectedInteger => "expected an integer literal"@,
            MetaError::ExpectedValue => "expected `= \"literal\"` after the key"@,
            MetaError::NoOption => "display attribute needs to be of the following forms: `display(group = \"name\")`, `display(group(name = \"name\", id = 4))`, `display(rename = \"name\")`, `display(extra = \"name\")`"@,
        }
    }

    /// The error in words.
    pub fn message(&self) -> (r: String)
        ensures
            r@ == self.message_text(),
    {
        let words: &str = match self {
            MetaError::NotDisplay => "only a `display` attribute holds an option",
            MetaError::UnknownOption => "unsupported attribute given to `display()`, supported attributes are `group`, `rename`, and `extra`",
            MetaError::UnknownGroupOption => "unsupported attribute under group, only supported values are `name` and `id`",
            MetaError::GroupWithoutName => "group attribute requires to be either `group = \"name\"` or `group(name = \"name\")`",
            MetaError::ExpectedString => "expected a string literal",
            MetaError::ExpectedInteger => "expected an integer literal",
            MetaError::ExpectedValue => "expected `= \"literal\"` after the key",
            MetaError::NoOption => "display attribute needs to be of the following forms: `display(group = \"name\")`, `display(group(name = \"name\", id = 4))`, `display(rename = \"name\")`, `display(extra = \"name\")`",
        };
        String::from_str(words)
    }
}

/// The name and the number that the first `upto` pairs of a `group(..)`
/// give: of several names or numbers the last one, and the error of the
/// first pair that is not understood.
pub open spec fn group_parts(pairs: Seq<Pair>, upto: nat) -> Result<
    (Option<Seq<char>>, Option<u128>),
    MetaError,
>
    decreases upto,
{
    if upto == 0 {
        Ok((None, None))
    } else {
        match group_parts(pairs, (upto - 1) as nat) {
            Err(e) => Err(e),
            Ok((name, id)) => {
                let pair = pairs[upto - 1];
                if pair.key@ == "name"@ {
                    match pair.value {
                        Literal::Str(s) => Ok((Some(s@), id)),
                        Literal::Int(_) => Err(MetaError::ExpectedString),
                    }
                } else if pair.key@ == "id"@ {
                    match pair.value {
                        Literal::Int(n) => Ok((name, Some(n))),
                        Literal::Str(_) => Err(MetaError::ExpectedInteger),
                    }
                } else {
                    Err(MetaError::UnknownGroupOption)
                }
            },
        }
    }
}

/// The string that follows a key as `= "literal"`.
pub open spec fn string_value(form: MetaForm) -> Result<Seq<char>, MetaError> {
    match form {
        MetaForm::Value(Literal::Str(s)) => Ok(s@),
        MetaForm::Value(Literal::Int(_)) => Err(MetaError::ExpectedString),
        _ => Err(MetaError::ExpectedValue),
    }
}

/// The option that one item stands for.
pub open spec fn meta_attr(meta: Meta) -> Result<AttrView, MetaError> {
    if meta.key@ == "group"@ {
        match meta.form {
            MetaForm::List(pairs) => match group_parts(pairs@, pairs.len() as nat) {
                Err(e) => Err(e),
                Ok((None, _)) => Err(MetaError::GroupWithoutName),
                Ok((Some(name), id)) => Ok(AttrView::Group(GroupView { name, id })),
            },
            MetaForm::Bare => Err(MetaError::ExpectedValue),
            form => match string_value(form) {
                Ok(name) => Ok(AttrView::Group(GroupView { name, id: None })),
                Err(e) => Err(e),
            },
        }
    } else if meta.key@ == "rename"@ {
        match string_value(meta.form) {
            Ok(name) => Ok(AttrView::Rename(name)),
            Err(e) => Err(e),
        }
    } else if meta.key@ == "extra"@ {
        match string_value(meta.form) {
            Ok(literal) => Ok(AttrView::Extra(literal)),
            Err(e) => Err(e),
        }
    } else {
        Err(MetaError::UnknownOption)
    }
}

/// The option that the first `upto` items leave: that of the last item, or
/// the error of the first item that stands for none.
pub open spec fn last_attr(metas: Seq<Meta>, upto: nat) -> Result<Option<AttrView>, MetaError>
    decreases upto,
{
    if upto == 0 {
        Ok(None)
    } else {
        match last_attr(metas, (upto - 1) as nat) {
            Err(e) => Err(e),
            Ok(_) => match meta_attr(metas[upto - 1]) {
                Ok(a) => Ok(Some(a)),
                Err(e) => Err(e),
            },
        }
    }
}

/// The option that the attribute `path(metas)` holds.
pub open spec fn attr_of(path: Seq<char>, metas: Seq<Meta>) -> Result<AttrView, MetaError> {
    if path != "display"@ {
        Err(MetaError::NotDisplay)
    } else {
        match last_attr(metas, metas.len()) {
            Err(e) => Err(e),
            Ok(None) => Err(MetaError::NoOption),
            Ok(Some(a)) => Ok(a),
        }
    }
}

/// What a result says in contracts.
pub open spec fn outcome(r: Result<Attr, MetaError>) -> Result<AttrView, MetaError> {
    match r {
        Ok(a) => Ok(a@),
        Err(e) => Err(e),
    }
}

/// Whether `key` is the word `word`.
fn is_word(key: &String, word: &str) -> (r: bool)
    ensures
        r == (key@ == word@),
{
    let w = String::from_str(word);
    *key == w
}

/// The string that follows a key as `= "literal"`.
fn read_string(form: &MetaForm) -> (r: Result<String, MetaError>)
    ensures
        match r {
            Ok(s) => string_value(*form) == Ok::<Seq<char>, MetaError>(s@),
            Err(e) => string_value(*form) == Err::<Seq<char>, MetaError>(e),
        },
{
    match form {
        MetaForm::Value(Literal::Str(s)) => Ok(s.clone()),
        MetaForm::Value(Literal::Int(_)) => Err(MetaError::ExpectedString),
        _ => Err(MetaError::ExpectedValue),
    }
}

/// The group that the pairs of a `group(..)` describe.
fn read_group(pairs: &Vec<Pair>) -> (r: Result<Group, MetaError>)
    ensures
        match group_parts(pairs@, pairs.len() as nat) {
            Err(e) => r == Err::<Group, MetaError>(e),
            Ok((None, _)) => r == Err::<Group, MetaError>(MetaError::GroupWithoutName),
            Ok((Some(name), id)) => r is Ok && r->Ok_0@ == (GroupView { name, id }),
        },
{
    let mut name: Option<String> = None;
    let mut id: Option<u128> = None;
    let mut i: usize = 0;
    while i < pairs.len()
        invariant
            i <= pairs.len(),
            group_parts(pairs@, i as nat) == Ok::<(Option<Seq<char>>, Option<u128>), MetaError>(
                (
                    match name {
                        Some(s) => Some(s@),
                        None => None,
                    },
                    id,
                ),
            ),
        decreases pairs.len() - i,
    {
        let pair = &pairs[i];
        if is_word(&pair.key, "name") {
            match &pair.value {
                Literal::Str(s) => {
                    name = Some(s.clone());
                },
                Literal::Int(_) => {
                    proof {
                        lemma_group_error_stays(pairs@, (i + 1) as nat, pairs.len() as nat);
                    }
                    return Err(MetaError::ExpectedString);
                },
            }
        } else if is_word(&pair.key, "id") {
            match &pair.value {
                Literal::Int(n) => {
                    id = Some(*n);
                },
                Literal::Str(_) => {
                    proof {
                        lemma_group_error_stays(pairs@, (i + 1) as nat, pairs.len() as nat);
                    }
                    return Err(MetaError::ExpectedInteger);
                },
            }
        } else {
            proof {
                lemma_group_error_stays(pairs@, (i + 1) as nat, pairs.len() as nat);
            }
            return Err(MetaError::UnknownGroupOption);
        }
        i += 1;
    }
    match name {
        Some(name) => Ok(Group { name, id }),
        None => Err(MetaError::GroupWithoutName),
    }
}

/// The error of a pair stays the outcome, whatever pairs follow.
proof fn lemma_group_error_stays(pairs: Seq<Pair>, at: nat, upto: nat)
    requires
        at <= upto,
        group_parts(pairs, at) is Err,
    ensures
        group_parts(pairs, upto) == group_parts(pairs, at),
    decreases upto,
{
    if at < upto {
        lemma_group_error_stays(pairs, at, (upto - 1) as nat);
    }
}

/// The error of an item stays the outcome, whatever items follow.
proof fn lemma_attr_error_stays(metas: Seq<Meta>, at: nat, upto: nat)
    requires
        at <= upto,
        last_attr(metas, at) is Err,
    ensures
        last_attr(metas, upto) == last_attr(metas, at),
    decreases upto,
{
    if at < upto {
        lemma_attr_error_stays(metas, at, (upto - 1) as nat);
    }
}

/// The option that one item stands for.
pub fn read_meta(meta: &Meta) -> (r: Result<Attr, MetaError>)
    ensures
        outcome(r) == meta_attr(*meta),
{
    if is_word(&meta.key, "group") {
        match &meta.form {
            MetaForm::List(pairs) => match read_group(pairs) {
                Ok(g) => Ok(Attr::Group(g)),
                Err(e) => Err(e),
            },
            MetaForm::Bare => Err(MetaError::ExpectedValue),
            form => match read_string(form) {
                Ok(name) => Ok(Attr::Group(Group { name, id: None })),
                Err(e) => Err(e),
            },
        }
    } else if is_word(&meta.key, "rename") {
        match read_string(&meta.form) {
            Ok(name) => Ok(Attr::Rename(name)),
            Err(e) => Err(e),
        }
    } else if is_word(&meta.key, "extra") {
        match read_string(&meta.form) {
            Ok(literal) => Ok(Attr::Extra(literal)),
            Err(e) => Err(e),
        }
    } else {
        Err(MetaError::UnknownOption)
    }
}

impl Attr {
    /// The option that the attribute `path(metas)` holds: that of the last
    /// item of a `display` list. It fails with the error of the first item
    /// that stands for no option, on an empty list, and on another path.
    pub fn from_meta(path: &str, metas: &Vec<Meta>) -> (r: Result<Attr, MetaError>)
        ensures
            outcome(r) == attr_of(path@, metas@),
    {
        let word = String::from_str(path);
        if !is_word(&word, "display") {
            return Err(MetaError::NotDisplay);
        }
        let mut attr: Option<Attr> = None;
        let mut i: usize = 0;
        while i < metas.len()
            invariant
                i <= metas.len(),
                path@ == "display"@,
                last_attr(metas@, i as nat) == Ok::<Option<AttrView>, MetaError>(
                    match attr {
                        Some(a) => Some(a@),
                        None => None,
                    },
                ),
            decreases metas.len() - i,
        {
            match read_meta(&metas[i]) {
                Ok(a) => {
                    attr = Some(a);
                },
                Err(e) => {
                    proof {
                        lemma_attr_error_stays(metas@, (i + 1) as nat, metas.len() as nat);
                    }
                    return Err(e);
                },
            }
            i += 1;
        }
        match attr {
            Some(a) => Ok(a),
            None => Err(MetaError::NoOption),
        }
    }
}

} // verus!
