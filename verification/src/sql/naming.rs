//! How an entity's name becomes a table's name.

use vstd::prelude::*;
use vstd::string::*;

verus! {

/// Whether `c` is one of the capitals `A` to `Z`.
pub open spec fn is_ascii_upper(c: char) -> bool {
    'A' <= c && c <= 'Z'
}

/// The lower-case form of an ASCII capital; every other character is kept.
pub open spec fn ascii_lower(c: char) -> char {
    if is_ascii_upper(c) {
        (c as int + 32) as char
    } else {
        c
    }
}

/// `name` in snake case: each ASCII capital becomes its lower-case letter,
/// with an underscore in front of it unless it is the first character.
pub open spec fn snake_case(name: Seq<char>) -> Seq<char>
    decreases name.len(),
{
    if name.len() == 0 {
        Seq::empty()
    } else if !is_ascii_upper(name.last()) {
        snake_case(name.drop_last()).push(name.last())
    } else if name.len() == 1 {
        seq![ascii_lower(name.last())]
    } else {
        snake_case(name.drop_last()).push('_').push(ascii_lower(name.last()))
    }
}

/// The table of the entity called `name`: the name in snake case, with an `s` behind it.
pub open spec fn table_name(name: Seq<char>) -> Seq<char> {
    snake_case(name).push('s')
}

/// The name of the table that holds the entity called `name`.
pub fn entity_to_table(name: &str) -> (r: String)
    ensures
        r@ == table_name(name@),
{
    let mut out = String::new();
    let mut first = true;
    for c in it: name.chars()
        invariant
            it.seq() == name@,
            first == (it.index() == 0),
            out@ == snake_case(name@.take(it.index())),
    {
        let ghost before = name@.take(it.index());
        let ghost after = name@.take(it.index() + 1);
        assert(after.drop_last() =~= before);
        assert(after.last() == c);
        if c >= 'A' && c <= 'Z' {
            if !first {
                out.push('_');
            }
            out.push(((c as u8) + 32u8) as char);
        } else {
            out.push(c);
        }
        first = false;
        assert(out@ =~= snake_case(after));
    }
    assert(name@.take(name@.len() as int) =~= name@);
    out.push('s');
    out
}

} // verus!
