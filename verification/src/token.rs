//! Tokens of an argument vector: what makes one a flag, which flag it names,
//! and whether a value follows it.

use vstd::prelude::*;

verus! {

broadcast use vstd::string::group_string_axioms;

/// The tokens of a vector of strings, each as its text.
pub open spec fn texts(v: Seq<String>) -> Seq<Seq<char>> {
    Seq::new(v.len(), |i: int| v[i]@)
}

/// A flag token begins with `-`.
pub open spec fn is_flag(token: Seq<char>) -> bool {
    token.len() > 0 && token[0] == '-'
}

/// The flag that `token` names: its second character, if it has one.
pub open spec fn named_flag(token: Seq<char>) -> Option<char> {
    if token.len() > 1 {
        Some(token[1])
    } else {
        None
    }
}

/// The flag in force once `token` is reached: the one that it names, or the
/// one that was in force before where it names none.
pub open spec fn flag_after(prev: Option<char>, token: Seq<char>) -> Option<char> {
    match named_flag(token) {
        Some(flag) => Some(flag),
        None => prev,
    }
}

/// The token at `at` is followed by a token that is not empty.
pub open spec fn has_value(tokens: Seq<Seq<char>>, at: int) -> bool {
    0 <= at && at + 1 < tokens.len() && tokens[at + 1].len() > 0
}

/// Whether `token` is a flag token.
pub fn starts_flag(token: &str) -> (b: bool)
    ensures
        b == is_flag(token@),
{
    let mut it = token.chars();
    match it.next() {
        Some(c) => c == '-',
        None => false,
    }
}

/// The second character of `token`, if it has one.
pub fn second_char(token: &str) -> (c: Option<char>)
    ensures
        c == named_flag(token@),
{
    let mut it = token.chars();
    match it.next() {
        Some(_) => it.next(),
        None => None,
    }
}

/// The value that follows the token at `at`: the next token, unless there is
/// none or it is empty.
pub fn following<'t>(tokens: &'t Vec<String>, at: usize) -> (value: Option<&'t str>)
    ensures
        value is Some == has_value(texts(tokens@), at as int),
        value matches Some(s) ==> s@ == texts(tokens@)[at + 1],
{
    if tokens.len() > 0 && at < tokens.len() - 1 {
        let next = tokens[at + 1].as_str();
        if next.is_empty() {
            None
        } else {
            Some(next)
        }
    } else {
        None
    }
}

/// A copy of the tokens from `from` to the end, in their order; of none where
/// `from` is past the end.
pub fn tail(tokens: &Vec<String>, from: usize) -> (rest: Vec<String>)
    ensures
        from <= tokens.len() ==> texts(rest@) == texts(tokens@).subrange(
            from as int,
            tokens.len() as int,
        ),
        from > tokens.len() ==> rest@.len() == 0,
{
    let mut rest: Vec<String> = Vec::new();
    let mut k: usize = from;
    while k < tokens.len()
        invariant
            from <= k,
            from <= tokens.len() ==> k <= tokens.len(),
            from > tokens.len() ==> k == from,
            rest.len() == k - from,
            forall|j: int| 0 <= j < rest.len() ==> rest[j]@ == tokens[from + j]@,
        decreases tokens.len() - k,
    {
        rest.push(tokens[k].clone());
        k += 1;
    }
    if from <= tokens.len() {
        assert(texts(rest@) =~= texts(tokens@).subrange(from as int, tokens.len() as int));
    }
    rest
}

} // verus!
