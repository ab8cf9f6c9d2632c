//! Text as a sequence of characters: the handful of string operations every node is written with,
//! each stated over the characters it works on.

use vstd::prelude::*;
use vstd::string::StrSliceExecFns;
use vstd::string::StringExecFns;
use vstd::string::StringSliceAdditionalSpecFns;

verus! {

broadcast use vstd::string::group_string_axioms;

/// The views of a sequence of values.
pub open spec fn views<T: View>(values: Seq<T>) -> Seq<T::V> {
    Seq::new(values.len(), |i: int| values[i]@)
}

/// The view of a value that may be absent.
pub open spec fn opt<T: View>(value: Option<T>) -> Option<T::V> {
    match value {
        Some(inner) => Some(inner@),
        None => None,
    }
}

/// Appends one character. The one operation of `std::string::String` the library needs and the
/// verifier has no statement of: `String::push` appends the given character to the end of the
/// string and changes nothing else.
pub assume_specification[ String::push ](s: &mut String, c: char)
    ensures
        final(s)@ == old(s)@.push(c),
;

/// One of some strings, wherever it stands, has these characters.
pub open spec fn named(list: Seq<String>, name: Seq<char>) -> bool {
    exists|j: int| 0 <= j < list.len() && (#[trigger] list[j])@ == name
}

/// A name is among the views of some strings exactly when one of them has its characters.
pub proof fn named_somewhere(list: Seq<String>, name: Seq<char>)
    ensures
        views(list).contains(name) <==> named(list, name),
{
    if views(list).contains(name) {
        let j = choose|j: int| 0 <= j < views(list).len() && views(list)[j] == name;
        assert(list[j]@ == name);
    }
    if named(list, name) {
        let j = choose|j: int| 0 <= j < list.len() && (#[trigger] list[j])@ == name;
        assert(views(list)[j] == name);
    }
}

/// Whether two strings hold the same characters.
pub fn same(a: &str, b: &str) -> (r: bool)
    ensures
        r == (a@ == b@),
{
    a.to_owned() == b.to_owned()
}

/// The characters of a string.
pub fn chars_of(s: &str) -> (r: Vec<char>)
    ensures
        r@ == s@,
{
    let mut out: Vec<char> = Vec::new();
    for c in it: s.chars()
        invariant
            out@ == it.seq().take(it.index() as int),
            it.seq() == s@,
    {
        out.push(c);
    }
    out
}

/// The string of a run of characters.
pub fn string_of(chars: &[char]) -> (r: String)
    ensures
        r@ == chars@,
{
    let mut out = String::new();
    let mut i: usize = 0;
    while i < chars.len()
        invariant
            i <= chars@.len(),
            out@ == chars@.take(i as int),
        decreases chars@.len() - i,
    {
        out.push(chars[i]);
        i += 1;
        assert(chars@.take(i as int) =~= chars@.take(i - 1).push(chars@[i - 1]));
    }
    assert(chars@.take(i as int) =~= chars@);
    out
}

/// An owned copy of a list of strings.
pub fn copies(list: &[String]) -> (r: Vec<String>)
    ensures
        r@ == list@,
{
    let mut out: Vec<String> = Vec::new();
    let mut i: usize = 0;
    while i < list.len()
        invariant
            i <= list@.len(),
            out@ == list@.take(i as int),
        decreases list@.len() - i,
    {
        out.push(list[i].clone());
        i += 1;
        assert(list@.take(i as int) =~= list@.take(i - 1).push(list@[i - 1]));
    }
    assert(list@.take(i as int) =~= list@);
    out
}

/// An owned copy of a string that may be absent.
pub fn copy_opt(value: &Option<String>) -> (r: Option<String>)
    ensures
        r == *value,
{
    match value {
        Some(inner) => Some(inner.clone()),
        None => None,
    }
}

/// Whether `name` is one of `list`.
pub fn contains(list: &[String], name: &str) -> (r: bool)
    ensures
        r == views(list@).contains(name@),
{
    let mut i: usize = 0;
    while i < list.len()
        invariant
            i <= list@.len(),
            forall|j: int| 0 <= j < i ==> list@[j]@ != name@,
        decreases list@.len() - i,
    {
        if same(list[i].as_str(), name) {
            assert(views(list@)[i as int] == name@);
            return true;
        }
        i += 1;
    }
    assert(!views(list@).contains(name@));
    false
}

/// The parts, with `separator` between each two.
pub open spec fn joined(parts: Seq<Seq<char>>, separator: Seq<char>) -> Seq<char>
    decreases parts.len(),
{
    if parts.len() == 0 {
        Seq::empty()
    } else if parts.len() == 1 {
        parts[0]
    } else {
        joined(parts.drop_last(), separator) + separator + parts.last()
    }
}

/// Joins the parts, putting `separator` between each two.
pub fn join(parts: &[String], separator: &str) -> (r: String)
    ensures
        r@ == joined(views(parts@), separator@),
{
    let mut out = String::new();
    let mut i: usize = 0;
    while i < parts.len()
        invariant
            i <= parts@.len(),
            out@ == joined(views(parts@).take(i as int), separator@),
        decreases parts@.len() - i,
    {
        if i > 0 {
            out.append(separator);
        }
        out.append(parts[i].as_str());
        i += 1;
        proof {
            let now = views(parts@).take(i as int);
            assert(now.drop_last() =~= views(parts@).take(i - 1));
            assert(now.last() == parts@[i - 1]@);
            if i == 1 {
                assert(out@ =~= parts@[0]@);
            }
        }
    }
    assert(views(parts@).take(i as int) =~= views(parts@));
    out
}

/// The code point of a character.
pub fn code(c: char) -> (r: u32)
    ensures
        r as int == c as int,
{
    c as u32
}

/// The characters with the Unicode `White_Space` property.
pub open spec fn whitespace(c: char) -> bool {
    ||| 0x9 <= c as u32 <= 0xd
    ||| c as u32 == 0x20
    ||| c as u32 == 0x85
    ||| c as u32 == 0xa0
    ||| c as u32 == 0x1680
    ||| 0x2000 <= c as u32 <= 0x200a
    ||| c as u32 == 0x2028
    ||| c as u32 == 0x2029
    ||| c as u32 == 0x202f
    ||| c as u32 == 0x205f
    ||| c as u32 == 0x3000
}

/// Whether a character is white space.
pub fn is_whitespace(c: char) -> (r: bool)
    ensures
        r == whitespace(c),
{
    let u: u32 = c as u32;
    (0x9 <= u && u <= 0xd) || u == 0x20 || u == 0x85 || u == 0xa0 || u == 0x1680 || (0x2000 <= u
        && u <= 0x200a) || u == 0x2028 || u == 0x2029 || u == 0x202f || u == 0x205f || u == 0x3000
}

/// What is left when the white space at the start is taken off.
pub open spec fn trimmed_start(s: Seq<char>) -> Seq<char>
    decreases s.len(),
{
    if s.len() > 0 && whitespace(s[0]) {
        trimmed_start(s.drop_first())
    } else {
        s
    }
}

/// What is left when the white space at the end is taken off.
pub open spec fn trimmed_end(s: Seq<char>) -> Seq<char>
    decreases s.len(),
{
    if s.len() > 0 && whitespace(s.last()) {
        trimmed_end(s.drop_last())
    } else {
        s
    }
}

/// What is left when the white space at both ends is taken off.
pub open spec fn trimmed(s: Seq<char>) -> Seq<char> {
    trimmed_end(trimmed_start(s))
}

/// How many characters of white space `s` starts with.
fn leading(s: &[char]) -> (n: usize)
    ensures
        n <= s@.len(),
        s@.skip(n as int) == trimmed_start(s@),
{
    let mut n: usize = 0;
    assert(s@.skip(0) =~= s@);
    while n < s.len() && is_whitespace(s[n])
        invariant
            n <= s@.len(),
            trimmed_start(s@.skip(n as int)) == trimmed_start(s@),
        decreases s@.len() - n,
    {
        assert(s@.skip(n as int).drop_first() =~= s@.skip(n + 1));
        n += 1;
    }
    n
}

/// How many characters of `s` are left without the white space at its end.
fn kept(s: &[char]) -> (n: usize)
    ensures
        n <= s@.len(),
        s@.take(n as int) == trimmed_end(s@),
{
    let mut n: usize = s.len();
    assert(s@.take(n as int) =~= s@);
    while n > 0 && is_whitespace(s[n - 1])
        invariant
            n <= s@.len(),
            trimmed_end(s@.take(n as int)) == trimmed_end(s@),
        decreases n,
    {
        assert(s@.take(n as int).drop_last() =~= s@.take(n - 1));
        n -= 1;
    }
    n
}

/// Takes the white space off the start.
pub fn trim_start(s: &[char]) -> (r: &[char])
    ensures
        r@ == trimmed_start(s@),
{
    let n: usize = leading(s);
    vstd::slice::slice_subrange(s, n, s.len())
}

/// Takes the white space off the end.
pub fn trim_end(s: &[char]) -> (r: &[char])
    ensures
        r@ == trimmed_end(s@),
{
    let n: usize = kept(s);
    vstd::slice::slice_subrange(s, 0, n)
}

/// Takes the white space off both ends.
pub fn trim(s: &str) -> (r: String)
    ensures
        r@ == trimmed(s@),
{
    let chars = chars_of(s);
    string_of(trim_end(trim_start(chars.as_slice())))
}

/// Whether nothing but white space is there.
pub open spec fn blank(s: Seq<char>) -> bool {
    trimmed(s).len() == 0
}

/// Whether a string is empty or all white space.
pub fn is_blank(s: &str) -> (r: bool)
    ensures
        r == blank(s@),
{
    let chars = chars_of(s);
    trim_end(trim_start(chars.as_slice())).len() == 0
}

/// A text is blank exactly when every character of it is white space.
pub proof fn blank_means_all_whitespace(s: Seq<char>)
    ensures
        blank(s) <==> (forall|i: int| 0 <= i < s.len() ==> whitespace(#[trigger] s[i])),
    decreases s.len(),
{
    if s.len() > 0 {
        let rest = s.drop_first();
        if whitespace(s[0]) {
            blank_means_all_whitespace(rest);
            assert(trimmed(s) == trimmed(rest));
            if forall|i: int| 0 <= i < rest.len() ==> whitespace(#[trigger] rest[i]) {
                assert forall|i: int| 0 <= i < s.len() implies whitespace(#[trigger] s[i]) by {
                    if i > 0 {
                        assert(whitespace(rest[i - 1]));
                    }
                }
            } else {
                let i = choose|i: int| 0 <= i < rest.len() && !whitespace(#[trigger] rest[i]);
                assert(!whitespace(s[i + 1]));
            }
        } else {
            trimmed_end_keeps_first(s);
            assert(!whitespace(s[0]));
        }
    }
}

/// Trimming the end never takes a first character that is no white space.
proof fn trimmed_end_keeps_first(s: Seq<char>)
    requires
        s.len() > 0,
        !whitespace(s[0]),
    ensures
        trimmed_end(s).len() > 0,
    decreases s.len(),
{
    if whitespace(s.last()) {
        assert(s.len() > 1);
        trimmed_end_keeps_first(s.drop_last());
    }
}

/// The character of a decimal digit.
pub open spec fn digit(d: int) -> char {
    if d == 0 {
        '0'
    } else if d == 1 {
        '1'
    } else if d == 2 {
        '2'
    } else if d == 3 {
        '3'
    } else if d == 4 {
        '4'
    } else if d == 5 {
        '5'
    } else if d == 6 {
        '6'
    } else if d == 7 {
        '7'
    } else if d == 8 {
        '8'
    } else {
        '9'
    }
}

/// The character of a decimal digit.
pub(crate) fn digit_char(d: u64) -> (r: char)
    requires
        d < 10,
    ensures
        r == digit(d as int),
{
    if d == 0 {
        '0'
    } else if d == 1 {
        '1'
    } else if d == 2 {
        '2'
    } else if d == 3 {
        '3'
    } else if d == 4 {
        '4'
    } else if d == 5 {
        '5'
    } else if d == 6 {
        '6'
    } else if d == 7 {
        '7'
    } else if d == 8 {
        '8'
    } else {
        '9'
    }
}

/// A number in decimal, without leading zeros.
pub open spec fn decimal(n: nat) -> Seq<char>
    decreases n,
{
    if n < 10 {
        seq![digit(n as int)]
    } else {
        decimal(n / 10).push(digit((n % 10) as int))
    }
}

/// A whole number in decimal, with a minus sign where it is negative.
pub open spec fn signed_decimal(n: int) -> Seq<char> {
    if n < 0 {
        seq!['-'] + decimal((-n) as nat)
    } else {
        decimal(n as nat)
    }
}

/// Writes a number in decimal.
pub fn number(n: u64) -> (r: String)
    ensures
        r@ == decimal(n as nat),
    decreases n,
{
    if n < 10 {
        let mut out = String::new();
        out.push(digit_char(n));
        assert(out@ =~= seq![digit(n as int)]);
        out
    } else {
        let mut out = number(n / 10);
        out.push(digit_char(n % 10));
        out
    }
}

/// Writes a whole number in decimal.
pub fn signed_number(n: i64) -> (r: String)
    ensures
        r@ == signed_decimal(n as int),
{
    if n < 0 {
        let magnitude: u64 = if n == i64::MIN {
            0x8000_0000_0000_0000
        } else {
            (-n) as u64
        };
        let mut out = "-".to_owned();
        proof {
            reveal_strlit("-");
            assert("-"@ =~= seq!['-']);
        }
        out.append(number(magnitude).as_str());
        out
    } else {
        number(n as u64)
    }
}

/// Whether a text starts with another.
pub fn starts_with(s: &str, prefix: &str) -> (r: bool)
    ensures
        r == prefix@.is_prefix_of(s@),
{
    let chars = chars_of(s);
    let wanted = chars_of(prefix);
    if wanted.len() > chars.len() {
        return false;
    }
    let mut i: usize = 0;
    while i < wanted.len()
        invariant
            i <= wanted@.len() <= chars@.len(),
            chars@ == s@,
            wanted@ == prefix@,
            forall|j: int| 0 <= j < i ==> chars@[j] == wanted@[j],
        decreases wanted@.len() - i,
    {
        if chars[i] != wanted[i] {
            assert(s@.subrange(0, prefix@.len() as int)[i as int] != prefix@[i as int]);
            return false;
        }
        i += 1;
    }
    assert(prefix@ =~= s@.subrange(0, prefix@.len() as int));
    true
}

/// A text with every occurrence of `from` replaced by `to`, found from left to right, no two of them
/// overlapping.
pub open spec fn replaced(s: Seq<char>, from: Seq<char>, to: Seq<char>) -> Seq<char>
    decreases s.len(),
{
    if from.len() == 0 || s.len() < from.len() {
        s
    } else if from.is_prefix_of(s) {
        to + replaced(s.skip(from.len() as int), from, to)
    } else {
        seq![s[0]] + replaced(s.skip(1), from, to)
    }
}

/// Whether `wanted` stands in `chars` at a place.
pub fn stands_at(chars: &Vec<char>, at: usize, wanted: &Vec<char>) -> (r: bool)
    requires
        at <= chars@.len(),
    ensures
        r == wanted@.is_prefix_of(chars@.skip(at as int)),
{
    if wanted.len() > chars.len() - at {
        return false;
    }
    let ghost rest = chars@.skip(at as int);
    let mut i: usize = 0;
    while i < wanted.len()
        invariant
            i <= wanted@.len(),
            at + wanted@.len() <= chars.len(),
            rest == chars@.skip(at as int),
            forall|j: int| 0 <= j < i ==> rest[j] == wanted@[j],
        decreases wanted@.len() - i,
    {
        if chars[at + i] != wanted[i] {
            assert(rest.subrange(0, wanted@.len() as int)[i as int] != wanted@[i as int]);
            return false;
        }
        i += 1;
    }
    assert(wanted@ =~= rest.subrange(0, wanted@.len() as int));
    true
}

/// Replaces every occurrence of `from`, which is not empty, by `to`.
pub fn replace(s: &str, from: &str, to: &str) -> (r: String)
    requires
        from@.len() > 0,
    ensures
        r@ == replaced(s@, from@, to@),
{
    let chars = chars_of(s);
    let wanted = chars_of(from);
    let mut out = String::new();
    let mut at: usize = 0;
    assert(chars@.skip(0) =~= chars@);
    assert(out@ + replaced(s@, from@, to@) =~= replaced(s@, from@, to@));
    while at < chars.len()
        invariant
            at <= chars@.len(),
            chars@ == s@,
            wanted@ == from@,
            from@.len() > 0,
            out@ + replaced(chars@.skip(at as int), from@, to@) == replaced(s@, from@, to@),
        decreases chars@.len() - at,
    {
        let ghost rest = chars@.skip(at as int);
        let ghost had = out@;
        if stands_at(&chars, at, &wanted) {
            out.append(to);
            at += wanted.len();
            proof {
                assert(chars@.skip(at as int) =~= rest.skip(from@.len() as int));
                assert(had + (to@ + replaced(chars@.skip(at as int), from@, to@)) =~= (had + to@)
                    + replaced(chars@.skip(at as int), from@, to@));
            }
        } else {
            out.push(chars[at]);
            at += 1;
            proof {
                assert(chars@.skip(at as int) =~= rest.skip(1));
                if rest.len() < from@.len() {
                    assert(replaced(rest.skip(1), from@, to@) =~= rest.skip(1));
                    assert(seq![rest[0]] + rest.skip(1) =~= rest);
                }
                assert(replaced(rest, from@, to@) =~= seq![rest[0]] + replaced(
                    rest.skip(1),
                    from@,
                    to@,
                ));
                assert(had + (seq![rest[0]] + replaced(rest.skip(1), from@, to@)) =~= had.push(
                    rest[0],
                ) + replaced(rest.skip(1), from@, to@));
            }
        }
    }
    assert(chars@.skip(at as int) =~= Seq::empty());
    assert(out@ + Seq::<char>::empty() =~= out@);
    out
}

/// How many bytes a text takes in UTF-8.
pub open spec fn byte_len(s: Seq<char>) -> nat {
    vstd::utf8::encode_utf8(s).len()
}

/// How many bytes a text takes in UTF-8.
pub fn bytes_in(s: &str) -> (r: usize)
    ensures
        r == byte_len(s@),
{
    s.as_bytes().len()
}

/// The greatest place at or before `max` at which a text can be cut between two characters.
pub open spec fn boundary_at_most(s: Seq<char>, max: int, at: int) -> bool {
    let bytes = vstd::utf8::encode_utf8(s);
    &&& 0 <= at <= bytes.len()
    &&& at <= max
    &&& vstd::utf8::is_char_boundary(bytes, at)
    &&& forall|j: int|
        at < j <= max && j <= bytes.len() ==> !(#[trigger] vstd::utf8::is_char_boundary(bytes, j))
}

/// The greatest byte index at or before `max` that does not split a character.
pub fn floor_char_boundary(s: &str, max: usize) -> (r: usize)
    ensures
        boundary_at_most(s@, max as int, r as int),
        byte_len(s@) <= max ==> r == byte_len(s@),
{
    let ghost bytes = vstd::utf8::encode_utf8(s@);
    proof {
        vstd::utf8::encode_utf8_valid_utf8(s@);
        vstd::utf8::is_char_boundary_start_end_of_seq(bytes);
    }
    let length: usize = bytes_in(s);
    if length <= max {
        return length;
    }
    let mut i: usize = max;
    while i > 0 && !s.is_char_boundary(i)
        invariant
            i <= max < bytes.len(),
            bytes == vstd::utf8::encode_utf8(s@),
            forall|j: int| i < j <= max ==> !(#[trigger] vstd::utf8::is_char_boundary(bytes, j)),
        decreases i,
    {
        i -= 1;
    }
    i
}

/// Being what is left of a text cut back to at most `budget` bytes, between two characters.
pub open spec fn clipped(s: Seq<char>, budget: int, left: Seq<char>) -> bool {
    &&& vstd::utf8::encode_utf8(left).is_prefix_of(vstd::utf8::encode_utf8(s))
    &&& boundary_at_most(s, budget, byte_len(left) as int)
    &&& byte_len(s) <= budget ==> left == s
}

/// What is left of a cut text is the beginning of it, character by character, within the budget.
pub proof fn a_clip_is_a_beginning(s: Seq<char>, budget: int, left: Seq<char>)
    requires
        clipped(s, budget, left),
    ensures
        left.is_prefix_of(s),
        byte_len(left) <= budget,
{
    let bytes = vstd::utf8::encode_utf8(s);
    let kept = vstd::utf8::encode_utf8(left);
    let at = kept.len() as int;
    vstd::utf8::encode_utf8_valid_utf8(s);
    vstd::utf8::encode_utf8_decode_utf8(s);
    vstd::utf8::encode_utf8_decode_utf8(left);
    assert(bytes.subrange(0, at) =~= kept);
    vstd::utf8::decode_utf8_split(bytes, at);
    assert(s =~= left + vstd::utf8::decode_utf8(bytes.subrange(at, bytes.len() as int)));
}

/// Cuts a text back to at most `budget` bytes, between two characters.
pub fn clip(s: &str, budget: usize) -> (r: String)
    ensures
        clipped(s@, budget as int, r@),
{
    let end: usize = floor_char_boundary(s, budget);
    let (left, _rest) = s.split_at(end);
    proof {
        let bytes = vstd::utf8::encode_utf8(s@);
        let kept = vstd::utf8::encode_utf8(left@);
        assert(kept == bytes.subrange(0, end as int));
        if byte_len(s@) <= budget {
            assert(kept =~= bytes);
            vstd::utf8::encode_utf8_decode_utf8(s@);
            vstd::utf8::encode_utf8_decode_utf8(left@);
        }
    }
    left.to_owned()
}

/// A character with an ASCII capital made small.
pub open spec fn ascii_lower(c: char) -> char {
    if 'A' as int <= c as int <= 'Z' as int {
        (c as int + 32) as char
    } else {
        c
    }
}

/// Makes an ASCII capital small.
pub fn lower_char(c: char) -> (r: char)
    ensures
        r == ascii_lower(c),
{
    let u: u32 = code(c);
    if 0x41 <= u && u <= 0x5a {
        let small: u8 = (u + 32) as u8;
        small as char
    } else {
        c
    }
}

/// A text with its ASCII capitals made small.
pub open spec fn lowered(s: Seq<char>) -> Seq<char> {
    Seq::new(s.len(), |i: int| ascii_lower(s[i]))
}

/// Makes the ASCII capitals of a text small.
pub fn lower(s: &str) -> (r: String)
    ensures
        r@ == lowered(s@),
{
    let chars = chars_of(s);
    let mut out: Vec<char> = Vec::new();
    let mut i: usize = 0;
    while i < chars.len()
        invariant
            i <= chars@.len(),
            chars@ == s@,
            out@.len() == i,
            forall|j: int| 0 <= j < i ==> out@[j] == ascii_lower(chars@[j]),
        decreases chars@.len() - i,
    {
        out.push(lower_char(chars[i]));
        i += 1;
    }
    assert(out@ =~= lowered(s@));
    string_of(out.as_slice())
}

/// Whether two texts are the same but for the case of ASCII letters.
pub fn same_ignoring_case(a: &str, b: &str) -> (r: bool)
    ensures
        r == (lowered(a@) == lowered(b@)),
{
    lower(a) == lower(b)
}

/// Where `wanted` first stands in a text, at or after a place; the end of the text where it does not.
pub open spec fn find_from(s: Seq<char>, from: int, wanted: Seq<char>) -> int
    decreases s.len() - from,
{
    if from < 0 || from + wanted.len() > s.len() {
        s.len() as int
    } else if wanted.is_prefix_of(s.skip(from)) {
        from
    } else {
        find_from(s, from + 1, wanted)
    }
}

/// What is found is a place at which the text holds what was wanted, with none before it.
pub proof fn find_is_first(s: Seq<char>, from: int, wanted: Seq<char>)
    requires
        0 <= from <= s.len(),
        wanted.len() > 0,
    ensures
        from <= find_from(s, from, wanted) <= s.len(),
        find_from(s, from, wanted) < s.len() ==> wanted.is_prefix_of(
            s.skip(find_from(s, from, wanted)),
        ),
        forall|j: int|
            from <= j < find_from(s, from, wanted) ==> !wanted.is_prefix_of(#[trigger] s.skip(j)),
    decreases s.len() - from,
{
    if from + wanted.len() <= s.len() && !wanted.is_prefix_of(s.skip(from)) {
        find_is_first(s, from + 1, wanted);
    }
}

/// Finds a text in another, at or after a place.
pub fn find(chars: &Vec<char>, from: usize, wanted: &Vec<char>) -> (r: usize)
    requires
        from <= chars@.len(),
        wanted@.len() > 0,
    ensures
        r == find_from(chars@, from as int, wanted@),
        from <= r <= chars@.len(),
        r < chars@.len() ==> r + wanted@.len() <= chars@.len(),
{
    let mut at: usize = from;
    while at < chars.len()
        invariant
            from <= at <= chars@.len(),
            wanted@.len() > 0,
            find_from(chars@, from as int, wanted@) == find_from(chars@, at as int, wanted@),
        decreases chars@.len() - at,
    {
        if stands_at(chars, at, wanted) {
            return at;
        }
        at += 1;
    }
    at
}

/// Whether a text holds another somewhere.
pub open spec fn occurs(s: Seq<char>, wanted: Seq<char>) -> bool {
    exists|i: int| 0 <= i <= s.len() && wanted.is_prefix_of(#[trigger] s.skip(i))
}

/// Whether a text holds another somewhere.
pub fn has(s: &str, wanted: &str) -> (r: bool)
    requires
        wanted@.len() > 0,
    ensures
        r == occurs(s@, wanted@),
{
    let chars = chars_of(s);
    let at: usize = find(&chars, 0, &chars_of(wanted));
    proof {
        find_is_first(s@, 0, wanted@);
        assert(!wanted@.is_prefix_of(s@.skip(s@.len() as int)));
    }
    at < chars.len()
}

/// Where the first line of a text ends.
pub open spec fn newline_at(s: Seq<char>) -> int
    decreases s.len(),
{
    if s.len() == 0 || s[0] == '\n' {
        0
    } else {
        1 + newline_at(s.drop_first())
    }
}

/// A line without the carriage return before its end.
pub open spec fn without_return(line: Seq<char>) -> Seq<char> {
    if line.len() > 0 && line.last() == '\r' {
        line.drop_last()
    } else {
        line
    }
}

/// The place of the first line's end is within the text.
pub proof fn newline_is_within(s: Seq<char>)
    ensures
        0 <= newline_at(s) <= s.len(),
        newline_at(s) < s.len() ==> s[newline_at(s)] == '\n',
        forall|j: int| 0 <= j < newline_at(s) ==> s[j] != '\n',
    decreases s.len(),
{
    if s.len() > 0 && s[0] != '\n' {
        let rest = s.drop_first();
        newline_is_within(rest);
        assert forall|j: int| 0 <= j < newline_at(s) implies s[j] != '\n' by {
            if j > 0 {
                assert(rest[j - 1] == s[j]);
            }
        }
    }
}

/// The lines of a text: each ends at a line feed, which with a carriage return before it is not part
/// of the line. The last line needs no end.
pub open spec fn lines(s: Seq<char>) -> Seq<Seq<char>>
    decreases s.len(),
{
    if s.len() == 0 {
        Seq::empty()
    } else {
        let n = newline_at(s);
        if 0 <= n < s.len() {
            seq![without_return(s.take(n))] + lines(s.skip(n + 1))
        } else {
            seq![s]
        }
    }
}

/// Splits a text into its lines.
pub fn split_lines(s: &str) -> (r: Vec<String>)
    ensures
        views(r@) == lines(s@),
{
    let chars = chars_of(s);
    let mut out: Vec<String> = Vec::new();
    let mut at: usize = 0;
    proof {
        assert(chars@.skip(0) =~= chars@);
        assert(views(out@) + lines(s@) =~= lines(s@));
    }
    while at < chars.len()
        invariant
            at <= chars@.len(),
            chars@ == s@,
            views(out@) + lines(chars@.skip(at as int)) == lines(s@),
        decreases chars@.len() - at,
    {
        let ghost rest = chars@.skip(at as int);
        let ghost had = views(out@);
        let mut end: usize = at;
        assert(rest.skip(0) =~= rest);
        while end < chars.len() && chars[end] != '\n'
            invariant
                at <= end <= chars@.len(),
                rest == chars@.skip(at as int),
                newline_at(rest) == (end - at) + newline_at(rest.skip(end - at)),
            decreases chars@.len() - end,
        {
            assert(rest.skip(end - at)[0] == chars@[end as int]);
            assert(rest.skip(end - at).drop_first() =~= rest.skip(end + 1 - at));
            end += 1;
        }
        if end >= chars.len() {
            let line = string_of(vstd::slice::slice_subrange(chars.as_slice(), at, end));
            proof {
                assert(rest.skip(end - at) =~= Seq::empty());
                assert(line@ =~= rest);
                assert(lines(rest) =~= seq![rest]);
            }
            out.push(line);
            at = chars.len();
            proof {
                assert(views(out@) =~= had.push(rest));
                assert(chars@.skip(at as int) =~= Seq::empty());
                assert(had.push(rest) + lines(chars@.skip(at as int)) =~= had + seq![rest]);
            }
        } else {
            let mut stop: usize = end;
            if stop > at && chars[stop - 1] == '\r' {
                stop -= 1;
            }
            let line = string_of(vstd::slice::slice_subrange(chars.as_slice(), at, stop));
            proof {
                assert(rest.skip(end - at)[0] == chars@[end as int]);
                assert(newline_at(rest) == end - at);
                let whole = rest.take(end - at);
                if end > at {
                    assert(whole.last() == chars@[end - 1]);
                }
                assert(line@ =~= without_return(whole));
                assert(chars@.skip(end + 1) =~= rest.skip(end - at + 1));
            }
            let ghost seen = line@;
            out.push(line);
            at = end + 1;
            proof {
                assert(views(out@) =~= had.push(seen));
                assert(had.push(seen) + lines(chars@.skip(at as int)) =~= had + (seq![seen]
                    + lines(chars@.skip(at as int))));
            }
        }
    }
    proof {
        assert(chars@.skip(at as int) =~= Seq::empty());
        assert(views(out@) + Seq::<Seq<char>>::empty() =~= views(out@));
    }
    out
}

/// How many characters a text starts with before its first white space.
pub open spec fn word_len(s: Seq<char>) -> int
    decreases s.len(),
{
    if s.len() == 0 || whitespace(s[0]) {
        0
    } else {
        1 + word_len(s.drop_first())
    }
}

/// Trimming never lengthens a text, and leaves no white space at its start.
pub proof fn trimmed_start_shortens(s: Seq<char>)
    ensures
        trimmed_start(s).len() <= s.len(),
        trimmed_start(s).len() > 0 ==> !whitespace(trimmed_start(s)[0]),
    decreases s.len(),
{
    if s.len() > 0 && whitespace(s[0]) {
        trimmed_start_shortens(s.drop_first());
    }
}

/// A word is within the text it starts, and is not empty where the text does not start with white
/// space.
pub proof fn word_is_within(s: Seq<char>)
    ensures
        0 <= word_len(s) <= s.len(),
        s.len() > 0 && !whitespace(s[0]) ==> word_len(s) > 0,
        forall|j: int| 0 <= j < word_len(s) ==> !whitespace(#[trigger] s[j]),
    decreases s.len(),
{
    if s.len() > 0 && !whitespace(s[0]) {
        let rest = s.drop_first();
        word_is_within(rest);
        assert forall|j: int| 0 <= j < word_len(s) implies !whitespace(#[trigger] s[j]) by {
            if j > 0 {
                assert(rest[j - 1] == s[j]);
            }
        }
    }
}

/// The words of a text: what stands between runs of white space.
pub open spec fn words(s: Seq<char>) -> Seq<Seq<char>>
    decreases s.len(),
{
    let t = trimmed_start(s);
    if t.len() == 0 {
        Seq::empty()
    } else {
        proof {
            trimmed_start_shortens(s);
            word_is_within(t);
        }
        seq![t.take(word_len(t))] + words(t.skip(word_len(t)))
    }
}

/// Splits a text into its words.
pub fn split_words(s: &[char]) -> (r: Vec<String>)
    ensures
        views(r@) == words(s@),
{
    let mut out: Vec<String> = Vec::new();
    let mut at: usize = 0;
    proof {
        assert(s@.skip(0) =~= s@);
        assert(views(out@) + words(s@) =~= words(s@));
    }
    while at < s.len()
        invariant
            at <= s@.len(),
            views(out@) + words(s@.skip(at as int)) == words(s@),
        decreases s@.len() - at,
    {
        let ghost rest = s@.skip(at as int);
        let ghost had = views(out@);
        let tail = vstd::slice::slice_subrange(s, at, s.len());
        assert(tail@ =~= rest);
        let blank: usize = leading(tail);
        let start: usize = at + blank;
        if start >= s.len() {
            proof {
                assert(rest.skip(blank as int) =~= Seq::empty());
                assert(words(rest) =~= Seq::empty());
                assert(words(Seq::<char>::empty()) =~= Seq::empty());
                assert(s@.skip(s@.len() as int) =~= Seq::empty());
            }
            at = s.len();
        } else {
            let ghost t = trimmed_start(rest);
            let mut end: usize = start;
            proof {
                assert(t =~= s@.skip(start as int));
                assert(t.skip(0) =~= t);
                trimmed_start_shortens(rest);
                word_is_within(t);
            }
            while end < s.len() && !is_whitespace(s[end])
                invariant
                    start <= end <= s@.len(),
                    t == s@.skip(start as int),
                    word_len(t) == (end - start) + word_len(t.skip(end - start)),
                decreases s@.len() - end,
            {
                assert(t.skip(end - start)[0] == s@[end as int]);
                assert(t.skip(end - start).drop_first() =~= t.skip(end + 1 - start));
                end += 1;
            }
            let word = string_of(vstd::slice::slice_subrange(s, start, end));
            proof {
                if end < s@.len() {
                    assert(t.skip(end - start)[0] == s@[end as int]);
                } else {
                    assert(t.skip(end - start) =~= Seq::empty());
                }
                assert(word_len(t) == end - start);
                assert(word@ =~= t.take(word_len(t)));
                assert(s@.skip(end as int) =~= t.skip(word_len(t)));
            }
            let ghost seen = word@;
            out.push(word);
            at = end;
            proof {
                assert(views(out@) =~= had.push(seen));
                assert(had.push(seen) + words(s@.skip(at as int)) =~= had + (seq![seen] + words(
                    s@.skip(at as int),
                )));
            }
        }
    }
    proof {
        assert(s@.skip(at as int) =~= Seq::empty());
        assert(words(Seq::<char>::empty()) =~= Seq::empty());
        assert(views(out@) + Seq::<Seq<char>>::empty() =~= views(out@));
    }
    out
}

/// A word is not empty and holds no white space.
pub proof fn words_are_words(s: Seq<char>)
    ensures
        forall|i: int|
            0 <= i < words(s).len() ==> (#[trigger] words(s)[i]).len() > 0 && (forall|j: int|
                0 <= j < words(s)[i].len() ==> !whitespace(#[trigger] words(s)[i][j])),
    decreases s.len(),
{
    let t = trimmed_start(s);
    trimmed_start_shortens(s);
    if t.len() > 0 {
        word_is_within(t);
        let rest = t.skip(word_len(t));
        words_are_words(rest);
        let all = words(s);
        assert(all =~= seq![t.take(word_len(t))] + words(rest));
        assert forall|i: int| 0 <= i < all.len() implies (#[trigger] all[i]).len() > 0 && (forall|
            j: int,
        |
            0 <= j < all[i].len() ==> !whitespace(#[trigger] all[i][j])) by {
            if i == 0 {
                assert(all[0] == t.take(word_len(t)));
            } else {
                assert(all[i] == words(rest)[i - 1]);
            }
        }
    }
}

/// One part joined is that part.
pub proof fn joined_of_one(part: Seq<char>, separator: Seq<char>)
    ensures
        joined(seq![part], separator) == part,
{
    let one = seq![part];
    assert(one.drop_last() =~= Seq::empty());
    reveal_with_fuel(joined, 2);
    assert(joined(one, separator) =~= part);
}

/// Joining goes part by part from the front, too: the first part, and where there are others, the
/// separator and the others joined.
pub proof fn joined_from_the_front(first: Seq<char>, rest: Seq<Seq<char>>, separator: Seq<char>)
    ensures
        rest.len() == 0 ==> joined(seq![first] + rest, separator) == first,
        rest.len() > 0 ==> joined(seq![first] + rest, separator) == first + separator + joined(
            rest,
            separator,
        ),
    decreases rest.len(),
{
    let all = seq![first] + rest;
    joined_of_one(first, separator);
    if rest.len() == 0 {
        assert(all =~= seq![first]);
    } else if rest.len() == 1 {
        assert(rest =~= seq![rest[0]]);
        joined_of_one(rest[0], separator);
        assert(all.drop_last() =~= seq![first]);
        assert(joined(all, separator) =~= first + separator + joined(rest, separator));
    } else {
        let front = rest.drop_last();
        joined_from_the_front(first, front, separator);
        assert(all.drop_last() =~= seq![first] + front);
        assert(joined(all, separator) =~= first + separator + joined(rest, separator));
    }
}

/// The characters that are white space: these and no others.
pub proof fn these_characters_are_white_space(c: char)
    ensures
        whitespace(c) <==> c == '\u{9}' || c == '\u{a}' || c == '\u{b}' || c == '\u{c}' || c == '\u{d}' || c == '\u{20}' || c == '\u{85}' || c == '\u{a0}' || c == '\u{1680}' || c == '\u{2000}' || c == '\u{2001}' || c == '\u{2002}' || c == '\u{2003}' || c == '\u{2004}' || c == '\u{2005}' || c == '\u{2006}' || c == '\u{2007}' || c == '\u{2008}' || c == '\u{2009}' || c == '\u{200a}' || c == '\u{2028}' || c == '\u{2029}' || c == '\u{202f}' || c == '\u{205f}' || c == '\u{3000}',
{
}

/// Trimming takes off exactly the white space at both ends: what is left is one stretch of the text,
/// with nothing but white space before and after it, and with none at its own ends.
pub proof fn trimming_leaves_what_stands_between(s: Seq<char>)
    ensures
        exists|a: int, b: int|
            {
                &&& 0 <= a <= b <= s.len()
                &&& trimmed(s) == #[trigger] s.subrange(a, b)
                &&& forall|i: int| 0 <= i < a ==> whitespace(#[trigger] s[i])
                &&& forall|i: int| b <= i < s.len() ==> whitespace(#[trigger] s[i])
                &&& a < b ==> !whitespace(s[a]) && !whitespace(s[b - 1])
            },
{
    let a = start_of(s);
    let t = trimmed_start(s);
    let n = end_of(t);
    assert(trimmed(s) =~= s.subrange(a, a + n));
    assert forall|i: int| a + n <= i < s.len() implies whitespace(#[trigger] s[i]) by {
        assert(t[i - a] == s[i]);
    }
    if n > 0 {
        assert(t[n - 1] == s[a + n - 1]);
        assert(t[0] == s[a]);
    }
}

proof fn start_of(s: Seq<char>) -> (a: int)
    ensures
        0 <= a <= s.len(),
        trimmed_start(s) == s.skip(a),
        forall|i: int| 0 <= i < a ==> whitespace(#[trigger] s[i]),
        a < s.len() ==> !whitespace(s[a]),
    decreases s.len(),
{
    if s.len() > 0 && whitespace(s[0]) {
        let rest = s.drop_first();
        let b = start_of(rest);
        assert(rest.skip(b) =~= s.skip(b + 1));
        assert forall|i: int| 0 <= i < b + 1 implies whitespace(#[trigger] s[i]) by {
            if i > 0 {
                assert(rest[i - 1] == s[i]);
            }
        }
        b + 1
    } else {
        assert(s.skip(0) =~= s);
        0
    }
}

proof fn end_of(s: Seq<char>) -> (n: int)
    ensures
        0 <= n <= s.len(),
        trimmed_end(s) == s.take(n),
        forall|i: int| n <= i < s.len() ==> whitespace(#[trigger] s[i]),
        n > 0 ==> !whitespace(s[n - 1]),
    decreases s.len(),
{
    if s.len() > 0 && whitespace(s.last()) {
        let front = s.drop_last();
        let m = end_of(front);
        assert(front.take(m) =~= s.take(m));
        assert forall|i: int| m <= i < s.len() implies whitespace(#[trigger] s[i]) by {
            if i < front.len() {
                assert(front[i] == s[i]);
            }
        }
        m
    } else {
        assert(s.take(s.len() as int) =~= s);
        s.len() as int
    }
}

/// What a run of decimal digits says, read from the left.
pub open spec fn reading(digits: Seq<char>) -> int
    decreases digits.len(),
{
    if digits.len() == 0 {
        0
    } else {
        reading(digits.drop_last()) * 10 + (digits.last() as int - '0' as int)
    }
}

/// A number that is written is read back: it is made of digits, says the number, and starts with a
/// zero only where it is zero.
pub proof fn a_written_number_is_read_back(n: nat)
    ensures
        reading(decimal(n)) == n,
        decimal(n).len() > 0,
        forall|i: int| 0 <= i < decimal(n).len() ==> '0' <= #[trigger] decimal(n)[i] && decimal(n)[i] <= '9',
        decimal(n)[0] == '0' ==> n == 0,
    decreases n,
{
    let s = decimal(n);
    if n < 10 {
        assert(s.drop_last() =~= Seq::empty());
        assert(reading(s.drop_last()) == 0);
    } else {
        a_written_number_is_read_back(n / 10);
        assert(s.drop_last() =~= decimal(n / 10));
        assert forall|i: int| 0 <= i < s.len() implies '0' <= #[trigger] s[i] && s[i] <= '9' by {
            if i < s.len() - 1 {
                assert(s[i] == decimal(n / 10)[i]);
            }
        }
        assert(s[0] == decimal(n / 10)[0]);
    }
}

/// A whole number is written as its size, with a minus sign before it exactly where it is negative.
pub proof fn a_negative_number_is_written_with_a_sign(n: int)
    ensures
        n >= 0 ==> signed_decimal(n) == decimal(n as nat),
        n < 0 ==> signed_decimal(n)[0] == '-' && signed_decimal(n).skip(1) == decimal((-n) as nat),
{
    if n < 0 {
        assert(signed_decimal(n).skip(1) =~= decimal((-n) as nat));
    }
}

proof fn none_stands_later(s: Seq<char>, from: Seq<char>, k: int)
    requires
        0 < k <= s.len(),
        forall|j: int| 0 <= j < k ==> !from.is_prefix_of(#[trigger] s.skip(j)),
    ensures
        forall|j: int| 0 <= j < k - 1 ==> !from.is_prefix_of(#[trigger] s.skip(1).skip(j)),
{
    assert forall|j: int| 0 <= j < k - 1 implies !from.is_prefix_of(
        #[trigger] s.skip(1).skip(j),
    ) by {
        assert(s.skip(1).skip(j) =~= s.skip(j + 1));
    }
}

proof fn one_more_before(s: Seq<char>, k: int, to: Seq<char>, rest: Seq<char>)
    requires
        0 < k <= s.len(),
    ensures
        seq![s[0]] + (s.skip(1).take(k - 1) + to + rest) == s.take(k) + to + rest,
{
    assert(seq![s[0]] + s.skip(1).take(k - 1) =~= s.take(k));
    assert(seq![s[0]] + (s.skip(1).take(k - 1) + to + rest) =~= seq![s[0]] + s.skip(1).take(k - 1)
        + to + rest);
}

/// Replacing goes from left to right: what stands before the first occurrence stays, the occurrence is
/// replaced, and what follows it is gone through in the same way; a text that holds none stays as it
/// is.
pub proof fn every_occurrence_is_replaced(s: Seq<char>, from: Seq<char>, to: Seq<char>, k: int)
    requires
        from.len() > 0,
        0 <= k <= s.len(),
        forall|j: int| 0 <= j < k ==> !from.is_prefix_of(#[trigger] s.skip(j)),
    ensures
        k < s.len() && from.is_prefix_of(s.skip(k)) ==> replaced(s, from, to) == s.take(k) + to
            + replaced(s.skip(k + from.len()), from, to),
        k == s.len() ==> replaced(s, from, to) == s,
    decreases s.len(),
{
    if s.len() > 0 {
        assert(s.skip(0) =~= s);
        let rest = s.skip(1);
        if k == 0 {
            if from.is_prefix_of(s.skip(0)) {
                assert(s.take(0) + to =~= to);
                assert(replaced(s, from, to) =~= s.take(0) + to + replaced(
                    s.skip(from.len() as int),
                    from,
                    to,
                ));
            }
        } else {
            assert(!from.is_prefix_of(s.skip(0)));
            none_stands_later(s, from, k);
            every_occurrence_is_replaced(rest, from, to, k - 1);
            assert(rest.skip(k - 1) =~= s.skip(k));
            if s.len() < from.len() {
                assert(!from.is_prefix_of(s.skip(k)));
                assert(rest.skip(k - 1).len() < from.len());
            } else {
                if k < s.len() && from.is_prefix_of(s.skip(k)) {
                    assert(rest.skip(k - 1 + from.len()) =~= s.skip(k + from.len()));
                    one_more_before(s, k, to, replaced(s.skip(k + from.len()), from, to));
                }
                if k == s.len() {
                    assert(seq![s[0]] + rest =~= s);
                }
            }
        }
    }
}

/// A text is its first line and the lines of what follows its first line feed; a text without one is
/// one line, and an empty text is none.
pub proof fn lines_end_at_line_feeds(line: Seq<char>, rest: Seq<char>)
    requires
        forall|i: int| 0 <= i < line.len() ==> line[i] != '\n',
    ensures
        lines(Seq::empty()).len() == 0,
        line.len() > 0 ==> lines(line) == seq![line],
        lines(line.push('\n') + rest) == seq![
            if line.len() > 0 && line.last() == '\r' {
                line.drop_last()
            } else {
                line
            },
        ] + lines(rest),
{
    let s = line.push('\n') + rest;
    newline_is_within(s);
    newline_is_within(line);
    let n = newline_at(s);
    assert(s[line.len() as int] == '\n');
    assert forall|i: int| 0 <= i < line.len() implies s[i] != '\n' by {
        assert(s[i] == line[i]);
    }
    assert(n == line.len());
    assert(s.take(n) =~= line);
    assert(s.skip(n + 1) =~= rest);
}

/// White space separates words: those of a text are those before it and then those after it; and a
/// text without any is one word.
pub proof fn white_space_separates_words(a: Seq<char>, c: char, b: Seq<char>)
    requires
        whitespace(c),
    ensures
        words(a.push(c) + b) == words(a) + words(b),
        a.len() > 0 && (forall|i: int| 0 <= i < a.len() ==> !whitespace(#[trigger] a[i])) ==> words(a)
            == seq![a],
        words(Seq::empty()).len() == 0,
    decreases a.len(),
{
    let s = a.push(c) + b;
    let k = start_of(a);
    let t = trimmed_start(a);
    assert(words(Seq::<char>::empty()) =~= Seq::empty());
    if k == a.len() {
        assert(t =~= Seq::empty());
        blank_start(a.push(c), b);
        assert(words(a) =~= Seq::empty());
        assert(words(s) == words(b)) by {
            same_words_when_trimmed(s, b);
        }
        assert(words(a) + words(b) =~= words(b));
    } else {
        let u = t.push(c) + b;
        assert(u =~= s.skip(k));
        assert(trimmed_start(s) == u) by {
            let m = start_of(s);
            if m < k {
                assert(s[m] == a[m]);
            }
            if m > k {
                assert(s[k] == a[k]);
            }
        }
        word_is_within(t);
        word_is_within(u);
        let w = word_len(t);
        word_goes_on(t, c, b);
        assert(word_len(u) == w);
        assert(u.take(w) =~= t.take(w));
        let rest = t.skip(w);
        assert(u.skip(w) =~= rest.push(c) + b);
        white_space_separates_words(rest, c, b);
        assert(words(s) =~= seq![t.take(w)] + (words(rest) + words(b)));
        assert(words(a) =~= seq![t.take(w)] + words(rest));
        assert(words(s) =~= words(a) + words(b));
        if forall|i: int| 0 <= i < a.len() ==> !whitespace(#[trigger] a[i]) {
            assert(k == 0) by {
                if k > 0 {
                    assert(whitespace(a[0]));
                }
            }
            assert(t =~= a);
            whole_word(a);
            assert(t.take(w) =~= a);
            assert(rest =~= Seq::empty());
            assert(words(a) =~= seq![a]);
        }
    }
}

proof fn whole_word(s: Seq<char>)
    requires
        forall|i: int| 0 <= i < s.len() ==> !whitespace(#[trigger] s[i]),
    ensures
        word_len(s) == s.len(),
    decreases s.len(),
{
    if s.len() > 0 {
        let rest = s.drop_first();
        assert forall|i: int| 0 <= i < rest.len() implies !whitespace(#[trigger] rest[i]) by {
            assert(rest[i] == s[i + 1]);
        }
        whole_word(rest);
    }
}

proof fn word_goes_on(t: Seq<char>, c: char, b: Seq<char>)
    requires
        whitespace(c),
    ensures
        word_len(t.push(c) + b) == word_len(t),
    decreases t.len(),
{
    let u = t.push(c) + b;
    if t.len() > 0 && !whitespace(t[0]) {
        assert(u.drop_first() =~= t.drop_first().push(c) + b);
        word_goes_on(t.drop_first(), c, b);
    }
}

proof fn blank_start(lead: Seq<char>, s: Seq<char>)
    requires
        forall|i: int| 0 <= i < lead.len() ==> whitespace(#[trigger] lead[i]),
    ensures
        trimmed_start(lead + s) == trimmed_start(s),
    decreases lead.len(),
{
    if lead.len() == 0 {
        assert(lead + s =~= s);
    } else {
        let rest = lead.drop_first();
        assert forall|i: int| 0 <= i < rest.len() implies whitespace(#[trigger] rest[i]) by {
            assert(rest[i] == lead[i + 1]);
        }
        assert((lead + s).drop_first() =~= rest + s);
        assert((lead + s)[0] == lead[0]);
        blank_start(rest, s);
    }
}

proof fn same_words_when_trimmed(a: Seq<char>, b: Seq<char>)
    requires
        trimmed_start(a) == trimmed_start(b),
    ensures
        words(a) == words(b),
{
}

/// Making a text small changes nothing but its ASCII capitals, each into its own small letter.
pub proof fn only_capitals_are_made_small(s: Seq<char>, i: int)
    requires
        0 <= i < s.len(),
    ensures
        lowered(s).len() == s.len(),
        'A' <= s[i] && s[i] <= 'Z' ==> lowered(s)[i] as int == s[i] as int + 32,
        !('A' <= s[i] && s[i] <= 'Z') ==> lowered(s)[i] == s[i],
{
}

/// A clip is as long as it can be: with one more character it would not fit. So a text that fits is
/// kept whole, and of one that does not as much as fits is.
pub proof fn a_clip_is_the_longest_that_fits(s: Seq<char>, budget: int, left: Seq<char>)
    requires
        clipped(s, budget, left),
    ensures
        left.is_prefix_of(s),
        byte_len(left) <= budget,
        left.len() < s.len() ==> byte_len(s.take(left.len() as int + 1)) > budget,
{
    a_clip_is_a_beginning(s, budget, left);
    let n = left.len() as int;
    if n < s.len() {
        let more = s.take(n + 1);
        a_beginning_ends_between_characters(s, n + 1);
        assert(more.take(n) =~= left);
        a_beginning_ends_between_characters(more, n);
        one_more_character_takes_bytes(more);
        assert(more.drop_last() =~= left);
        let at = byte_len(more) as int;
        assert(vstd::utf8::is_char_boundary(vstd::utf8::encode_utf8(s), at));
    }
}

proof fn a_beginning_ends_between_characters(s: Seq<char>, k: int)
    requires
        0 <= k <= s.len(),
    ensures
        vstd::utf8::is_char_boundary(vstd::utf8::encode_utf8(s), byte_len(s.take(k)) as int),
        byte_len(s.take(k)) <= byte_len(s),
    decreases s.len(),
{
    let bytes = vstd::utf8::encode_utf8(s);
    vstd::utf8::encode_utf8_valid_utf8(s);
    if k > 0 {
        let rest = s.drop_first();
        vstd::utf8::encode_utf8_first_scalar(s);
        assert(vstd::utf8::pop_first_scalar(bytes) =~= vstd::utf8::encode_utf8(rest));
        a_beginning_ends_between_characters(rest, k - 1);
        assert(s.take(k).drop_first() =~= rest.take(k - 1));
        assert(s.take(k)[0] == s[0]);
    }
}

proof fn one_more_character_takes_bytes(s: Seq<char>)
    requires
        s.len() > 0,
    ensures
        byte_len(s) > byte_len(s.drop_last()),
    decreases s.len(),
{
    vstd::utf8::encode_utf8_first_scalar(s);
    if s.len() > 1 {
        let rest = s.drop_first();
        one_more_character_takes_bytes(rest);
        assert(s.drop_last().drop_first() =~= rest.drop_last());
        assert(s.drop_last()[0] == s[0]);
    } else {
        assert(s.drop_last() =~= Seq::empty());
    }
}

/// A text holds another exactly when it is something, that other, and something.
pub proof fn a_text_holds_what_stands_in_it(s: Seq<char>, wanted: Seq<char>)
    ensures
        occurs(s, wanted) <==> exists|i: int|
            0 <= i && i + wanted.len() <= s.len() && #[trigger] s.subrange(i, i + wanted.len())
                == wanted,
{
    if occurs(s, wanted) {
        let i = choose|i: int| 0 <= i <= s.len() && wanted.is_prefix_of(#[trigger] s.skip(i));
        assert(s.subrange(i, i + wanted.len()) =~= s.skip(i).take(wanted.len() as int));
        assert(s.subrange(i, i + wanted.len()) =~= wanted);
    }
    if exists|i: int|
        0 <= i && i + wanted.len() <= s.len() && #[trigger] s.subrange(i, i + wanted.len()) == wanted {
        let i = choose|i: int|
            0 <= i && i + wanted.len() <= s.len() && #[trigger] s.subrange(i, i + wanted.len())
                == wanted;
        assert forall|k: int| 0 <= k < wanted.len() implies wanted[k] == s.skip(i)[k] by {
            assert(s.subrange(i, i + wanted.len())[k] == s[i + k]);
        }
        assert(wanted.is_prefix_of(s.skip(i)));
    }
}

/// A place that is between characters and within a budget, and after which there is none, is the
/// text's end where the whole text is within it.
pub proof fn a_text_within_its_budget_is_cut_nowhere(s: Seq<char>, max: int, at: int)
    requires
        boundary_at_most(s, max, at),
    ensures
        0 <= at <= max,
        byte_len(s) <= max ==> at == byte_len(s),
{
    let bytes = vstd::utf8::encode_utf8(s);
    vstd::utf8::encode_utf8_valid_utf8(s);
    vstd::utf8::is_char_boundary_start_end_of_seq(bytes);
    assert(vstd::utf8::is_char_boundary(bytes, bytes.len() as int));
}

} // verus!
