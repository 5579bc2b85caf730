//! The ownership idioms that the checker's rules are modelled on, as
//! ordinary functions: a value is valid from its declaration to the end of
//! its scope, assignment and calls copy a scalar and move a string, and a
//! clone is the one way to have two owners' worth of one string.

use vstd::prelude::*;
use vstd::utf8::encode_utf8;

verus! {

/// A variable is valid from its declaration to the end of its block.
pub fn _scope() -> () {
    {
        let _s: &str = "hello";
    }
}

/// Text on the heap is made from a literal, and can be bound mutably.
pub fn _string_literal() -> () {
    let _s: String = "hello".to_owned();
    let mut _s: String = "hello, world".to_owned();
}

/// The memory of a string goes back when its owner goes out of scope.
pub fn _memory_one() -> () {
    {
        let _s: String = "hello".to_owned();
    }
}

/// Assigning an integer copies it; assigning a string moves it.
pub fn _interact_integer() -> () {
    let _x: i32 = 5;
    let _y: i32 = _x;
    assert(_x == 5 && _y == 5);
    let _s1: String = "hello".to_owned();
    let _s2: String = _s1;
    assert(_s2@ == "hello"@);
}

/// After `s2 = s1` only `s2` is valid, and it alone releases the memory.
pub fn _test() -> () {
    let s1: String = "hello".to_owned();
    let s2: String = s1;
    assert(s2@ == "hello"@);
}

/// A clone copies the text on the heap: both strings stay valid.
pub fn _clone() -> () {
    let _s1: String = "hello".to_owned();
    let _s2: String = _s1.clone();
    assert(_s1@ == "hello"@ && _s2@ == _s1@);
}

/// A returned value moves into the caller's variable, and an argument moves
/// into the call.
pub fn _new() -> () {
    let _s1: String = _gives_ownership();
    let _s2: String = "hello".to_owned();
    let _s3: String = _takes_and_gives_back(_s2);
    assert(_s1@ == "yours"@ && _s3@ == "hello"@);
}

/// Takes a string and gives the same string back.
pub fn _takes_and_gives_back(a_string: String) -> (given_back: String)
    ensures
        given_back == a_string,
{
    a_string
}

/// Makes a string and moves it out to the caller.
pub fn _gives_ownership() -> (given: String)
    ensures
        given@ == "yours"@,
{
    let _some_string: String = "yours".to_owned();
    _some_string
}

/// Gives the string back together with its length, which is the number of
/// bytes of its UTF-8 encoding.
pub fn _calculate_length(s: String) -> (measured: (String, usize))
    ensures
        measured.0 == s,
        measured.1 == encode_utf8(s@).len() as usize,
{
    let length: usize = s.as_str().len();
    (s, length)
}

} // verus!
