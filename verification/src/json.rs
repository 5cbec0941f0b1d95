//! A JSON document, as a tree of plain values.

use vstd::prelude::*;
use vstd::string::StringExecFns;
use crate::names::{find_named, index_of, names_of, Named};

verus! {

#[derive(Debug, PartialEq, Eq)]
pub enum Json {
    Null,
    Bool(bool),
    /// A number without fraction or exponent.
    Integer(i128),
    /// Any other number, as it is written.
    Decimal(String),
    Text(String),
    Array(Vec<Json>),
    /// The members of an object, in the order of the document.
    Object(Vec<Member>),
}

#[derive(Debug, PartialEq, Eq)]
pub struct Member {
    pub key: String,
    pub value: Json,
}

impl Named for Member {
    open spec fn name_model(&self) -> Seq<char> {
        self.key@
    }

    fn name_ref(&self) -> (r: &String) {
        &self.key
    }
}

/// The value of the first member with the key `key`.
pub open spec fn member(members: &Vec<Member>, key: Seq<char>) -> Option<Json> {
    match index_of(names_of(members@), key) {
        Some(k) => if 0 <= k < members.len() {
            Some(members[k].value)
        } else {
            None
        },
        None => None,
    }
}

/// The value of the first member with the key `key`.
pub fn get_member<'a>(members: &'a Vec<Member>, key: &str) -> (r: Option<&'a Json>)
    ensures
        match r {
            Some(value) => member(members, key@) == Some(*value),
            None => member(members, key@).is_none(),
        },
{
    let wanted: String = String::from_str(key);
    match find_named(members, &wanted) {
        Some(k) => Some(&members[k].value),
        None => None,
    }
}

/// Whether `text` is the string `word`.
pub fn is_word(text: &String, word: &str) -> (r: bool)
    ensures
        r == (text@ == word@),
{
    let wanted: String = String::from_str(word);
    *text == wanted
}

} // verus!
