//! Names derived from a service's declaration: the module name of a service
//! (snake case), the type names of its messages (Pascal case) and the names
//! of its method-id constants (upper case).
use vstd::prelude::*;
use vstd::string::*;
use crate::text::push_char;

verus! {

/// Whether a character is upper case, by the Unicode `Uppercase` property.
pub uninterp spec fn char_is_uppercase(c: char) -> bool;

/// The first character of the lower-case mapping of a character.
pub uninterp spec fn char_lowercase_first(c: char) -> char;

/// The upper-case mapping of a character (one or more characters).
pub uninterp spec fn char_uppercase(c: char) -> Seq<char>;

/// The upper-case form of a string.
pub uninterp spec fn str_uppercase(s: Seq<char>) -> Seq<char>;

/// Calls `char::is_uppercase`: the Unicode `Uppercase` property of `c`, a
/// function of `c` alone, named here and not spelled out.
#[verifier::external_body]
fn is_uppercase(c: char) -> (r: bool)
    ensures
        r == char_is_uppercase(c),
{
    c.is_uppercase()
}

/// Calls `char::to_lowercase` and takes the first character of the mapping
/// (which always has one); the Unicode lower-case mapping is a function of
/// `c` alone, named here and not spelled out.
#[verifier::external_body]
fn lowercase_first(c: char) -> (r: char)
    ensures
        r == char_lowercase_first(c),
{
    c.to_lowercase().next().unwrap()
}

/// Calls `char::to_uppercase` and collects the mapping into a string; the
/// Unicode upper-case mapping is a function of `c` alone, named here and not
/// spelled out.
#[verifier::external_body]
fn uppercase(c: char) -> (r: String)
    ensures
        r@ == char_uppercase(c),
{
    c.to_uppercase().to_string()
}

/// Calls `str::to_uppercase`: the upper-case form of `s` by the Unicode
/// `Uppercase` property, a function of `s` alone, named here and not spelled out.
#[verifier::external_body]
pub(crate) fn upper_case(s: &str) -> (r: String)
    ensures
        r@ == str_uppercase(s@),
{
    s.to_uppercase()
}

/// What one character at position `i` becomes in snake case: an upper-case
/// letter turns lower case, with an underscore before it unless it comes first.
pub open spec fn snake_piece(i: int, c: char) -> Seq<char> {
    if char_is_uppercase(c) {
        if i > 0 {
            seq!['_', char_lowercase_first(c)]
        } else {
            seq![char_lowercase_first(c)]
        }
    } else {
        seq![c]
    }
}

/// The snake-case form of a name, character by character.
pub open spec fn snake_case(cs: Seq<char>) -> Seq<char>
    decreases cs.len(),
{
    if cs.len() == 0 {
        Seq::empty()
    } else {
        snake_case(cs.drop_last()) + snake_piece(cs.len() - 1, cs.last())
    }
}

/// Whether the character at position `k` starts one of the parts that
/// underscores separate.
pub open spec fn starts_part(cs: Seq<char>, k: int) -> bool {
    k == 0 || cs[k - 1] == '_'
}

/// The Pascal-case form of a name: the parts between underscores, each with
/// its first character in upper case, joined without the underscores.
pub open spec fn pascal_case(cs: Seq<char>) -> Seq<char>
    decreases cs.len(),
{
    if cs.len() == 0 {
        Seq::empty()
    } else {
        let k = cs.len() - 1;
        let c = cs[k];
        pascal_case(cs.drop_last()) + if c == '_' {
            Seq::empty()
        } else if starts_part(cs, k) {
            char_uppercase(c)
        } else {
            seq![c]
        }
    }
}

/// The snake-case form of a name: `MathService` becomes `math_service`.
pub fn to_snake_case(s: &str) -> (r: String)
    ensures
        r@ == snake_case(s@),
        (forall|i: int| 0 <= i < s@.len() ==> !char_is_uppercase(#[trigger] s@[i])) ==> r@ == s@,
{
    let mut result = String::new();
    let mut first = true;
    let ghost cs = s@;
    for ch in it: s.chars()
        invariant
            it.seq() == cs,
            first == (it.index() == 0),
            result@ == snake_case(cs.take(it.index() as int)),
    {
        let ghost k = it.index() as int;
        proof {
            assert(cs.take(k + 1).drop_last() =~= cs.take(k));
        }
        if is_uppercase(ch) {
            if !first {
                push_char(&mut result, '_');
            }
            push_char(&mut result, lowercase_first(ch));
        } else {
            push_char(&mut result, ch);
        }
        first = false;
        proof {
            assert(result@ =~= snake_case(cs.take(k)) + snake_piece(k, ch));
        }
    }
    proof {
        assert(cs.take(cs.len() as int) =~= cs);
        if forall|i: int| 0 <= i < cs.len() ==> !char_is_uppercase(#[trigger] cs[i]) {
            snake_case_keeps_names_without_capitals(cs);
        }
    }
    result
}

/// A character that is not upper case is copied into the snake-case form
/// unchanged and on its own, wherever it stands: nothing is put before it.
pub proof fn snake_case_copies_other_characters(cs: Seq<char>, c: char)
    requires
        !char_is_uppercase(c),
    ensures
        snake_case(cs.push(c)) == snake_case(cs).push(c),
{
    assert(cs.push(c).drop_last() =~= cs);
}

/// An upper-case character becomes its lower-case form in the snake-case
/// form, with an underscore before it unless it is the first character.
pub proof fn snake_case_marks_capitals(cs: Seq<char>, c: char)
    requires
        char_is_uppercase(c),
    ensures
        cs.len() == 0 ==> snake_case(cs.push(c)) == seq![char_lowercase_first(c)],
        cs.len() > 0 ==> snake_case(cs.push(c)) == snake_case(cs).push('_').push(char_lowercase_first(c)),
{
    assert(cs.push(c).drop_last() =~= cs);
    assert(snake_case(cs) + seq!['_', char_lowercase_first(c)] =~= snake_case(cs).push('_').push(
        char_lowercase_first(c),
    ));
    if cs.len() == 0 {
        assert(snake_case(cs) =~= Seq::<char>::empty());
        assert(Seq::<char>::empty() + seq![char_lowercase_first(c)] =~= seq![char_lowercase_first(c)]);
    }
}

/// A name without upper-case characters is its own snake-case form.
pub proof fn snake_case_keeps_names_without_capitals(cs: Seq<char>)
    requires
        forall|i: int| 0 <= i < cs.len() ==> !char_is_uppercase(#[trigger] cs[i]),
    ensures
        snake_case(cs) == cs,
    decreases cs.len(),
{
    if cs.len() > 0 {
        let init = cs.drop_last();
        assert forall|i: int| 0 <= i < init.len() implies !char_is_uppercase(#[trigger] init[i]) by {
            assert(init[i] == cs[i]);
        }
        snake_case_keeps_names_without_capitals(init);
        assert(!char_is_uppercase(cs[cs.len() - 1]));
        assert(init.push(cs.last()) =~= cs);
    }
}

/// The snake-case form is as long as the name, plus one underscore for each
/// upper-case character after the first position.
pub proof fn snake_case_length(cs: Seq<char>)
    ensures
        snake_case(cs).len() == cs.len() + capitals_after_first(cs),
    decreases cs.len(),
{
    if cs.len() > 0 {
        snake_case_length(cs.drop_last());
    }
}

/// The number of upper-case characters after the first position.
pub open spec fn capitals_after_first(cs: Seq<char>) -> nat
    decreases cs.len(),
{
    if cs.len() <= 1 {
        0
    } else {
        capitals_after_first(cs.drop_last()) + if char_is_uppercase(cs.last()) { 1nat } else { 0nat }
    }
}

/// The Pascal-case form of a name: `get_value` becomes `GetValue`.
pub fn to_pascal_case(s: &str) -> (r: String)
    ensures
        r@ == pascal_case(s@),
{
    let mut result = String::new();
    let mut at_start = true;
    let ghost cs = s@;
    for ch in it: s.chars()
        invariant
            it.seq() == cs,
            at_start == (it.index() == 0 || cs[it.index() - 1] == '_'),
            result@ == pascal_case(cs.take(it.index() as int)),
    {
        let ghost k = it.index() as int;
        proof {
            assert(cs.take(k + 1).drop_last() =~= cs.take(k));
            assert(starts_part(cs.take(k + 1), k) == at_start);
        }
        if ch == '_' {
            at_start = true;
        } else if at_start {
            let up = uppercase(ch);
            result.append(up.as_str());
            at_start = false;
        } else {
            push_char(&mut result, ch);
        }
    }
    proof {
        assert(cs.take(cs.len() as int) =~= cs);
    }
    result
}

} // verus!
