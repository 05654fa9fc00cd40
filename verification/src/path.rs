//! Field paths: reaching into nested records by a dotted path.
//!
//! A path is made into a JSON pointer, with a slash before it and a slash
//! for each of its dots, and the pointer is looked up as `serde_json` does
//! it. So `kubernetes.namespace_name` reaches the member `namespace_name` of
//! the member `kubernetes`, and `list.0` the first item of the array under
//! `list`.

use vstd::prelude::*;
use crate::json::{Json, JsonValue, find_pointed, pointed};
use crate::text::{chars_of, push_char};

verus! {

/// The JSON pointer that a field path stands for: a slash, then the path
/// with a slash for each dot.
pub open spec fn pointer_of(path: Seq<char>) -> Seq<char> {
    seq!['/'] + Seq::new(
        path.len(),
        |i: int|
            if path[i] == '.' {
                '/'
            } else {
                path[i]
            },
    )
}

impl JsonValue {
    /// What a field path reaches inside a value.
    pub open spec fn resolve(self, path: Seq<char>) -> Option<JsonValue> {
        pointed(self, pointer_of(path))
    }

    /// The text that a field path reaches; `None` where it reaches nothing
    /// or something that is no string.
    pub open spec fn text_at(self, path: Seq<char>) -> Option<Seq<char>> {
        match self.resolve(path) {
            Some(value) => value.text(),
            None => None,
        }
    }
}

/// Makes the JSON pointer of a field path.
pub fn pointer_for(path: &str) -> (pointer: String)
    ensures
        pointer@ == pointer_of(path@),
{
    let chars = chars_of(path);
    let mut pointer = "/".to_owned();
    proof {
        reveal_strlit("/");
        assert(pointer@ =~= seq!['/']);
    }
    let mut i: usize = 0;
    while i < chars.len()
        invariant
            i <= chars.len(),
            chars@ == path@,
            pointer@.len() == i + 1,
            forall|k: int| 0 <= k <= i ==> #[trigger] pointer@[k] == pointer_of(path@)[k],
        decreases chars.len() - i,
    {
        let c = if chars[i] == '.' {
            '/'
        } else {
            chars[i]
        };
        push_char(&mut pointer, c);
        i += 1;
    }
    assert(pointer@ =~= pointer_of(path@));
    pointer
}

impl Json {
    /// What a field path reaches inside this value, as a value of its own.
    pub fn lookup(&self, path: &str) -> (found: Option<Json>)
        ensures
            match found {
                Some(value) => self@.resolve(path@) == Some(value@),
                None => self@.resolve(path@) is None,
            },
    {
        let pointer = pointer_for(path);
        find_pointed(self, pointer.as_str())
    }

    /// The text that a field path reaches.
    pub fn text_at(&self, path: &str) -> (text: Option<String>)
        ensures
            match text {
                Some(chars) => self@.text_at(path@) == Some(chars@),
                None => self@.text_at(path@) is None,
            },
    {
        match self.lookup(path) {
            Some(Json::Text(chars)) => Some(chars),
            _ => None,
        }
    }
}

} // verus!
