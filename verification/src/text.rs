//! Text compared and searched character by character.

use vstd::prelude::*;
use vstd::string::StringExecFns;

verus! {

/// `String::push` appends one character.
pub assume_specification[ String::push ](s: &mut String, c: char)
    ensures
        final(s)@ == old(s)@.push(c),
;

/// `part` occurs in `text` at position `i`.
pub open spec fn occurs_at(text: Seq<char>, part: Seq<char>, i: int) -> bool {
    0 <= i && i + part.len() <= text.len() && text.subrange(i, i + part.len()) == part
}

/// `part` occurs somewhere in `text`.
pub open spec fn occurs(text: Seq<char>, part: Seq<char>) -> bool {
    exists|i: int| occurs_at(text, part, i)
}

/// The parts in order, with `separator` between neighbours.
pub open spec fn joined(parts: Seq<Seq<char>>, separator: Seq<char>) -> Seq<char>
    decreases parts.len(),
{
    if parts.len() == 0 {
        Seq::empty()
    } else if parts.len() == 1 {
        parts[0]
    } else {
        joined(parts.drop_last(), separator) + separator + parts.last()
    }
}

/// The characters of `s`.
pub fn chars_of(s: &str) -> (chars: Vec<char>)
    ensures
        chars@ == s@,
{
    broadcast use vstd::string::group_string_axioms;

    let mut chars: Vec<char> = Vec::new();
    for c in it: s.chars()
        invariant
            chars@ == it.seq().take(it.index() as int),
            it.seq() == s@,
    {
        assert(it.seq().take(it.index() + 1) =~= it.seq().take(it.index() as int).push(c));
        chars.push(c);
    }
    assert(s@.take(s@.len() as int) =~= s@);
    chars
}

fn matches_at(text: &Vec<char>, part: &Vec<char>, i: usize) -> (b: bool)
    requires
        i + part@.len() <= text@.len(),
    ensures
        b == occurs_at(text@, part@, i as int),
{
    let n: usize = text.len();
    let mut k: usize = 0;
    while k < part.len()
        invariant
            n == text@.len(),
            i + part@.len() <= n,
            k <= part@.len(),
            forall|j: int| 0 <= j < k ==> #[trigger] part@[j] == text@[i + j],
        decreases part@.len() - k,
    {
        if text[i + k] != part[k] {
            assert(text@.subrange(i as int, i + part@.len())[k as int] != part@[k as int]);
            return false;
        }
        k = k + 1;
    }
    assert(text@.subrange(i as int, i + part@.len()) =~= part@);
    true
}

/// Whether two texts are the same.
pub fn same_text(a: &str, b: &str) -> (same: bool)
    ensures
        same == (a@ == b@),
{
    let x = chars_of(a);
    let y = chars_of(b);
    if x.len() != y.len() {
        return false;
    }
    let same = matches_at(&x, &y, 0);
    assert(x@.subrange(0, x@.len() as int) =~= x@);
    same
}

/// Whether `text` begins with `part`.
pub fn starts_with(text: &str, part: &str) -> (b: bool)
    ensures
        b == occurs_at(text@, part@, 0),
{
    let x = chars_of(text);
    let y = chars_of(part);
    y.len() <= x.len() && matches_at(&x, &y, 0)
}

/// Whether `part` occurs anywhere in `text`.
pub fn contains(text: &str, part: &str) -> (b: bool)
    ensures
        b == occurs(text@, part@),
{
    let x = chars_of(text);
    let y = chars_of(part);
    if y.len() > x.len() {
        return false;
    }
    let mut i: usize = 0;
    while i <= x.len() - y.len()
        invariant
            x@ == text@,
            y@ == part@,
            y@.len() <= x@.len(),
            i <= x@.len() - y@.len() + 1,
            forall|j: int| 0 <= j < i ==> !occurs_at(x@, y@, j),
        decreases x@.len() - i + 1,
    {
        if matches_at(&x, &y, i) {
            return true;
        }
        if i == x.len() - y.len() {
            return false;
        }
        i = i + 1;
    }
    false
}

/// Joins the parts in order, with `separator` between neighbours.
pub fn join(parts: &Vec<&str>, separator: &str) -> (text: String)
    ensures
        text@ == joined(parts@.map_values(|p: &str| p@), separator@),
{
    let ghost views = parts@.map_values(|p: &str| p@);
    let mut text = String::new();
    let mut i: usize = 0;
    while i < parts.len()
        invariant
            i <= parts@.len(),
            views == parts@.map_values(|p: &str| p@),
            text@ == joined(views.take(i as int), separator@),
        decreases parts@.len() - i,
    {
        assert(views.take(i + 1).drop_last() =~= views.take(i as int));
        if i > 0 {
            text.append(separator);
        } else {
            assert(text@ =~= Seq::<char>::empty());
        }
        text.append(parts[i]);
        assert(i == 0 ==> text@ =~= views[0]);
        i = i + 1;
    }
    assert(views.take(views.len() as int) =~= views);
    text
}

/// The text made of `chars`.
pub fn string_of(chars: &Vec<char>) -> (text: String)
    ensures
        text@ == chars@,
{
    let mut text = String::new();
    let mut i: usize = 0;
    while i < chars.len()
        invariant
            i <= chars@.len(),
            text@ == chars@.take(i as int),
        decreases chars@.len() - i,
    {
        assert(chars@.take(i + 1) =~= chars@.take(i as int).push(chars@[i as int]));
        text.push(chars[i]);
        i = i + 1;
    }
    assert(chars@.take(chars@.len() as int) =~= chars@);
    text
}

/// The character of a decimal digit.
pub open spec fn digit(d: int) -> char {
    (48 + d) as char
}

/// A number in decimal.
pub open spec fn decimal_text(n: nat) -> Seq<char>
    decreases n,
{
    if n < 10 {
        seq![digit(n as int)]
    } else {
        decimal_text(n / 10).push(digit((n % 10) as int))
    }
}

/// A number in decimal.
pub fn decimal(n: u128) -> (text: String)
    ensures
        text@ == decimal_text(n as nat),
    decreases n,
{
    let last: u8 = (n % 10) as u8;
    let mut text = if n < 10 {
        String::new()
    } else {
        decimal(n / 10)
    };
    text.push((48u8 + last) as char);
    assert(n < 10 ==> text@ =~= seq![digit(n as int)]);
    text
}

/// A part occurs where every character of it stands in the text, one after the
/// other.
pub proof fn law_occurrence_is_character_by_character(text: Seq<char>, part: Seq<char>, i: int)
    ensures
        occurs_at(text, part, i) <==> 0 <= i && i + part.len() <= text.len() && forall|k: int|
            0 <= k < part.len() ==> #[trigger] part[k] == text[i + k],
{
    if 0 <= i && i + part.len() <= text.len() {
        let found = text.subrange(i, i + part.len());
        if occurs_at(text, part, i) {
            assert forall|k: int| 0 <= k < part.len() implies #[trigger] part[k] == text[i + k] by {
                assert(found[k] == text[i + k]);
            }
        }
        if forall|k: int| 0 <= k < part.len() ==> #[trigger] part[k] == text[i + k] {
            assert(found =~= part);
        }
    }
}

/// A text contains exactly what it can be written around.
pub proof fn law_contained_text_can_be_cut_out(text: Seq<char>, part: Seq<char>)
    ensures
        occurs(text, part) <==> exists|before: Seq<char>, after: Seq<char>|
            text == #[trigger] (before + part + after),
{
    if occurs(text, part) {
        let i = choose|i: int| occurs_at(text, part, i);
        let before = text.take(i);
        let after = text.skip(i + part.len());
        assert(before + text.subrange(i, i + part.len()) + after =~= text);
        assert(text == before + part + after);
    }
    if exists|before: Seq<char>, after: Seq<char>| text == #[trigger] (before + part + after) {
        let (before, after) = choose|before: Seq<char>, after: Seq<char>|
            text == #[trigger] (before + part + after);
        let i = before.len() as int;
        assert(text.subrange(i, i + part.len()) =~= part);
        assert(occurs_at(text, part, i));
    }
}

/// A further part is joined on with one separator; the first one has none.
pub proof fn law_separators_stand_between(parts: Seq<Seq<char>>, separator: Seq<char>, p: Seq<char>)
    ensures
        joined(Seq::empty(), separator) == Seq::<char>::empty(),
        joined(seq![p], separator) == p,
        parts.len() > 0 ==> joined(parts.push(p), separator) == joined(parts, separator) + separator
            + p,
{
    assert(parts.push(p).drop_last() =~= parts);
}

/// The number that decimal digits spell.
pub open spec fn spelled(text: Seq<char>) -> int
    decreases text.len(),
{
    if text.len() == 0 {
        0
    } else {
        spelled(text.drop_last()) * 10 + (text.last() as int - 48)
    }
}

/// A number in decimal is made of digits, spells that number, and has no leading
/// zero.
pub proof fn law_decimal_spells_the_number(n: nat)
    ensures
        spelled(decimal_text(n)) == n,
        decimal_text(n).len() > 0,
        forall|i: int|
            0 <= i < decimal_text(n).len() ==> '0' <= #[trigger] decimal_text(n)[i] <= '9',
        n > 0 ==> decimal_text(n)[0] != '0',
    decreases n,
{
    let text = decimal_text(n);
    if n < 10 {
        reveal_with_fuel(spelled, 2);
        assert(text.drop_last() =~= Seq::empty());
    } else {
        law_decimal_spells_the_number(n / 10);
        assert(text.drop_last() =~= decimal_text(n / 10));
        assert forall|i: int| 0 <= i < text.len() implies '0' <= #[trigger] text[i] <= '9' by {
            if i < text.len() - 1 {
                assert(text[i] == decimal_text(n / 10)[i]);
            }
        }
        assert(text[0] == decimal_text(n / 10)[0]);
    }
}

} // verus!
