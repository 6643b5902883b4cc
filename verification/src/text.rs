//! Text: the string operations that the relay's rules are stated with.

use vstd::prelude::*;
use vstd::utf8::*;

verus! {

/// The views of a sequence of strings.
pub open spec fn texts(strings: Seq<String>) -> Seq<Seq<char>> {
    strings.map_values(|s: String| s@)
}

/// The view of a string that may be absent.
pub open spec fn optional_text(s: Option<String>) -> Option<Seq<char>> {
    match s {
        Some(s) => Some(s@),
        None => None,
    }
}

/// A character with the Unicode property White_Space.
pub open spec fn is_white_space(c: char) -> bool {
    let code = c as u32;
    ||| 0x09 <= code <= 0x0d
    ||| code == 0x20
    ||| code == 0x85
    ||| code == 0xa0
    ||| code == 0x1680
    ||| 0x2000 <= code <= 0x200a
    ||| code == 0x2028
    ||| code == 0x2029
    ||| code == 0x202f
    ||| code == 0x205f
    ||| code == 0x3000
}

/// `s` without its leading white space.
pub open spec fn trimmed_start(s: Seq<char>) -> Seq<char>
    decreases s.len(),
{
    if s.len() > 0 && is_white_space(s.first()) {
        trimmed_start(s.drop_first())
    } else {
        s
    }
}

/// `s` without its trailing white space.
pub open spec fn trimmed_end(s: Seq<char>) -> Seq<char>
    decreases s.len(),
{
    if s.len() > 0 && is_white_space(s.last()) {
        trimmed_end(s.drop_last())
    } else {
        s
    }
}

/// `s` without its leading and trailing white space.
pub open spec fn trimmed(s: Seq<char>) -> Seq<char> {
    trimmed_end(trimmed_start(s))
}

/// `s` without the run of `c` that it starts with.
pub open spec fn without_leading(s: Seq<char>, c: char) -> Seq<char>
    decreases s.len(),
{
    if s.len() > 0 && s.first() == c {
        without_leading(s.drop_first(), c)
    } else {
        s
    }
}

/// `s` without the run of `c` that it ends with.
pub open spec fn without_trailing(s: Seq<char>, c: char) -> Seq<char>
    decreases s.len(),
{
    if s.len() > 0 && s.last() == c {
        without_trailing(s.drop_last(), c)
    } else {
        s
    }
}

/// `c` with an ASCII capital turned into the small letter.
pub open spec fn ascii_lower(c: char) -> char {
    if 'A' <= c <= 'Z' {
        ((c as u32) + 32) as char
    } else {
        c
    }
}

/// `s` with its ASCII capitals turned into small letters.
pub open spec fn lowercase(s: Seq<char>) -> Seq<char> {
    s.map_values(|c: char| ascii_lower(c))
}

/// What stands after the last `c` of `s`; all of `s` where there is no `c`.
pub open spec fn after_last(s: Seq<char>, c: char) -> Seq<char>
    decreases s.len(),
{
    if s.len() == 0 || s.last() == c {
        Seq::empty()
    } else {
        after_last(s.drop_last(), c).push(s.last())
    }
}

/// `str::trim`: gives the text without its leading and trailing white space, which is Unicode's
/// White_Space property.
pub assume_specification[ str::trim ](s: &str) -> (res: &str)
    ensures
        res@ == trimmed(s@),
;

/// `str::to_ascii_lowercase`: gives a copy in which each ASCII capital is the small letter and
/// every other character is as it was.
pub assume_specification[ str::to_ascii_lowercase ](s: &str) -> (res: String)
    ensures
        res@ == lowercase(s@),
;

/// The error of `std::str::from_utf8`.
#[verifier::external_type_specification]
#[verifier::external_body]
pub struct ExUtf8Error(std::str::Utf8Error);

/// `std::str::from_utf8`: succeeds exactly on valid UTF-8, with the text whose encoding the bytes
/// are.
pub assume_specification<'a>[ std::str::from_utf8 ](v: &'a [u8]) -> (res: Result<
    &'a str,
    std::str::Utf8Error,
>)
    ensures
        res is Ok <==> valid_utf8(v@),
        res matches Ok(s) ==> encode_utf8(s@) == v@,
;

/// `str::trim_start_matches` with a character: gives the text without the run of `c` at its start.
#[verifier::external_body]
pub(crate) fn trim_start_char(s: &str, c: char) -> (res: &str)
    ensures
        res@ == without_leading(s@, c),
{
    s.trim_start_matches(c)
}

/// `str::trim_end_matches` with a character: gives the text without the run of `c` at its end.
#[verifier::external_body]
pub(crate) fn trim_end_char(s: &str, c: char) -> (res: &str)
    ensures
        res@ == without_trailing(s@, c),
{
    s.trim_end_matches(c)
}

/// `str::rsplit_once` with a character: splits the text at the last `c`, and gives nothing when
/// there is no `c`.
#[verifier::external_body]
pub(crate) fn rsplit_once_char(s: &str, c: char) -> (res: Option<(&str, &str)>)
    ensures
        res is Some <==> s@.contains(c),
        res matches Some((before, after)) ==> s@ == before@.push(c) + after@ && !after@.contains(c),
{
    s.rsplit_once(c)
}

pub(crate) proof fn lemma_after_last(before: Seq<char>, c: char, after: Seq<char>)
    requires
        !after.contains(c),
    ensures
        after_last(before.push(c) + after, c) == after,
    decreases after.len(),
{
    let s = before.push(c) + after;
    if after.len() > 0 {
        let init = after.drop_last();
        lemma_after_last(before, c, init);
        assert(s.drop_last() =~= before.push(c) + init);
    }
}

/// Whether two texts are the same.
pub fn same_text(a: &str, b: &str) -> (same: bool)
    ensures
        same == (a@ == b@),
{
    let x = a.as_bytes();
    let y = b.as_bytes();
    proof {
        encode_utf8_decode_utf8(a@);
        encode_utf8_decode_utf8(b@);
    }
    if x.len() != y.len() {
        return false;
    }
    let mut i: usize = 0;
    while i < x.len()
        invariant
            i <= x@.len(),
            x@.len() == y@.len(),
            x@ == encode_utf8(a@),
            y@ == encode_utf8(b@),
            forall|k: int| 0 <= k < i ==> x@[k] == y@[k],
        decreases x@.len() - i,
    {
        if x[i] != y[i] {
            return false;
        }
        i += 1;
    }
    assert(x@ =~= y@);
    true
}

/// The character of a decimal digit.
pub open spec fn digit_char(digit: nat) -> char {
    (48 + digit) as char
}

/// A number in decimal notation.
pub open spec fn decimal(n: nat) -> Seq<char>
    decreases n,
{
    if n < 10 {
        seq![digit_char(n)]
    } else {
        decimal(n / 10).push(digit_char(n % 10))
    }
}

/// The text of a decimal digit.
fn digit_text(digit: u64) -> (res: &'static str)
    requires
        digit < 10,
    ensures
        res@ == seq![digit_char(digit as nat)],
{
    proof {
        reveal_strlit("0");
        reveal_strlit("1");
        reveal_strlit("2");
        reveal_strlit("3");
        reveal_strlit("4");
        reveal_strlit("5");
        reveal_strlit("6");
        reveal_strlit("7");
        reveal_strlit("8");
        reveal_strlit("9");
    }
    let res = match digit {
        0 => "0",
        1 => "1",
        2 => "2",
        3 => "3",
        4 => "4",
        5 => "5",
        6 => "6",
        7 => "7",
        8 => "8",
        _ => "9",
    };
    res
}

/// Appends a number in decimal notation.
pub fn append_decimal(out: &mut String, n: u64)
    ensures
        final(out)@ == old(out)@ + decimal(n as nat),
    decreases n,
{
    if n >= 10 {
        append_decimal(out, n / 10);
    }
    out.append(digit_text(n % 10));
}

/// A path below `base`, as POSIX paths are joined: an absolute `name` stands for itself.
pub open spec fn joined_path(base: Seq<char>, name: Seq<char>) -> Seq<char> {
    if name.len() > 0 && name[0] == '/' {
        name
    } else if base.len() == 0 || base.last() == '/' {
        base + name
    } else {
        base.push('/') + name
    }
}

/// Joins two paths.
pub fn join_path(base: &str, name: &str) -> (path: String)
    ensures
        path@ == joined_path(base@, name@),
{
    if name.unicode_len() > 0 && name.get_char(0) == '/' {
        return name.to_owned();
    }
    let mut path = base.to_owned();
    let length = base.unicode_len();
    if length > 0 && base.get_char(length - 1) != '/' {
        proof {
            reveal_strlit("/");
        }
        path.append("/");
    }
    path.append(name);
    path
}

/// Whether white space stands neither first nor last in `s`.
pub open spec fn is_trimmed(s: Seq<char>) -> bool {
    s.len() > 0 ==> !is_white_space(s.first()) && !is_white_space(s.last())
}

pub(crate) proof fn lemma_trimmed_start_first(s: Seq<char>)
    ensures
        trimmed_start(s).len() > 0 ==> !is_white_space(trimmed_start(s).first()),
        trimmed_start(s).len() > 0 ==> trimmed_start(s).last() == s.last(),
    decreases s.len(),
{
    if s.len() > 0 && is_white_space(s.first()) {
        lemma_trimmed_start_first(s.drop_first());
    }
}

pub(crate) proof fn lemma_trimmed_end_last(s: Seq<char>)
    ensures
        trimmed_end(s).len() > 0 ==> !is_white_space(trimmed_end(s).last()),
        trimmed_end(s).len() > 0 ==> trimmed_end(s).first() == s.first(),
    decreases s.len(),
{
    if s.len() > 0 && is_white_space(s.last()) {
        lemma_trimmed_end_last(s.drop_last());
    }
}

/// Trimming leaves no white space at either end, and changes nothing where there is none.
pub(crate) proof fn lemma_trimmed(s: Seq<char>)
    ensures
        is_trimmed(trimmed(s)),
        is_trimmed(s) ==> trimmed(s) == s,
{
    lemma_trimmed_start_first(s);
    lemma_trimmed_end_last(trimmed_start(s));
}

pub(crate) proof fn lemma_ascii_lower(c: char)
    ensures
        is_white_space(ascii_lower(c)) == is_white_space(c),
        ascii_lower(ascii_lower(c)) == ascii_lower(c),
        (ascii_lower(c) == '@') == (c == '@'),
        (ascii_lower(c) == '>') == (c == '>'),
{
}

pub(crate) proof fn lemma_lowercase_twice(s: Seq<char>)
    ensures
        lowercase(lowercase(s)) == lowercase(s),
{
    assert forall|i: int| 0 <= i < s.len() implies ascii_lower(ascii_lower(s[i])) == ascii_lower(
        s[i],
    ) by {
        lemma_ascii_lower(s[i]);
    }
}

pub(crate) proof fn lemma_lowercase_trimmed_start(s: Seq<char>)
    ensures
        trimmed_start(lowercase(s)) == lowercase(trimmed_start(s)),
    decreases s.len(),
{
    if s.len() > 0 {
        lemma_ascii_lower(s.first());
        assert(lowercase(s).drop_first() =~= lowercase(s.drop_first()));
        lemma_lowercase_trimmed_start(s.drop_first());
    }
}

pub(crate) proof fn lemma_lowercase_trimmed_end(s: Seq<char>)
    ensures
        trimmed_end(lowercase(s)) == lowercase(trimmed_end(s)),
    decreases s.len(),
{
    if s.len() > 0 {
        lemma_ascii_lower(s.last());
        assert(lowercase(s).drop_last() =~= lowercase(s.drop_last()));
        lemma_lowercase_trimmed_end(s.drop_last());
    }
}

/// Small letters and trimming go together in either order.
pub(crate) proof fn lemma_lowercase_trimmed(s: Seq<char>)
    ensures
        trimmed(lowercase(s)) == lowercase(trimmed(s)),
{
    lemma_lowercase_trimmed_start(s);
    lemma_lowercase_trimmed_end(trimmed_start(s));
}

pub(crate) proof fn lemma_lowercase_without_brackets(s: Seq<char>)
    ensures
        without_trailing(lowercase(s), '>') == lowercase(without_trailing(s, '>')),
    decreases s.len(),
{
    if s.len() > 0 {
        lemma_ascii_lower(s.last());
        assert(lowercase(s).drop_last() =~= lowercase(s.drop_last()));
        lemma_lowercase_without_brackets(s.drop_last());
    }
}

pub(crate) proof fn lemma_lowercase_after_at(s: Seq<char>)
    ensures
        after_last(lowercase(s), '@') == lowercase(after_last(s, '@')),
        lowercase(s).contains('@') == s.contains('@'),
    decreases s.len(),
{
    if s.len() > 0 {
        lemma_ascii_lower(s.last());
        assert(lowercase(s).drop_last() =~= lowercase(s.drop_last()));
        lemma_lowercase_after_at(s.drop_last());
        if s.contains('@') {
            let k = choose|k: int| 0 <= k < s.len() && s[k] == '@';
            assert(lowercase(s)[k] == '@');
        }
        if lowercase(s).contains('@') {
            let k = choose|k: int| 0 <= k < s.len() && lowercase(s)[k] == '@';
            lemma_ascii_lower(s[k]);
        }
    }
}

pub(crate) proof fn lemma_without_leading(s: Seq<char>, c: char)
    ensures
        without_leading(s, c).len() > 0 ==> without_leading(s, c).first() != c,
        without_leading(s, c).len() > 0 ==> without_leading(s, c).last() == s.last(),
    decreases s.len(),
{
    if s.len() > 0 && s.first() == c {
        lemma_without_leading(s.drop_first(), c);
    }
}

/// Decimal notation is made of digits alone.
pub(crate) proof fn lemma_decimal_digits(n: nat)
    ensures
        decimal(n).len() > 0,
        forall|k: int| 0 <= k < decimal(n).len() ==> '0' <= #[trigger] decimal(n)[k] <= '9',
    decreases n,
{
    if n >= 10 {
        lemma_decimal_digits(n / 10);
    }
}

/// Different numbers have different decimal notations.
pub(crate) proof fn lemma_decimal_injective(a: nat, b: nat)
    requires
        decimal(a) == decimal(b),
    ensures
        a == b,
    decreases a,
{
    assert(decimal(a).last() == digit_char(a % 10));
    lemma_decimal_digits(a / 10);
    lemma_decimal_digits(b / 10);
    if a >= 10 {
        assert(decimal(a).drop_last() =~= decimal(a / 10));
        assert(decimal(b).drop_last() =~= decimal(b / 10));
        lemma_decimal_injective(a / 10, b / 10);
    }
}

/// A text splits at its first `c` in one way only.
pub(crate) proof fn lemma_split_first(
    a: Seq<char>,
    rest_a: Seq<char>,
    b: Seq<char>,
    rest_b: Seq<char>,
    c: char,
)
    requires
        a.push(c) + rest_a == b.push(c) + rest_b,
        !a.contains(c),
        !b.contains(c),
    ensures
        a == b,
        rest_a == rest_b,
{
    let s = a.push(c) + rest_a;
    let t = b.push(c) + rest_b;
    assert(s[a.len() as int] == c);
    assert(t[b.len() as int] == c);
    assert(a =~= s.take(a.len() as int));
    assert(rest_a =~= s.skip(a.len() as int + 1));
}

/// The texts of some strings are the texts of each of them, in their order.
pub proof fn law_texts_are_those_of_the_strings(strings: Seq<String>, k: int)
    requires
        0 <= k < strings.len(),
    ensures
        texts(strings).len() == strings.len(),
        texts(strings)[k] == strings[k]@,
        optional_text(Some(strings[k])) == Some(strings[k]@),
        optional_text(None) == None::<Seq<char>>,
{
}

/// Among the ASCII characters, white space are the blank and the five control characters from the
/// tabulator to the carriage return.
pub proof fn law_ascii_white_space(c: char)
    requires
        (c as u32) < 0x80,
    ensures
        is_white_space(c) <==> c == ' ' || c == '\t' || c == '\n' || c == '\x0b' || c == '\x0c' || c
            == '\r',
{
}

/// Trimming takes away the white space around a text, and nothing else.
pub proof fn law_trimming_takes_the_surrounding_white_space(
    before: Seq<char>,
    core: Seq<char>,
    after: Seq<char>,
)
    requires
        forall|k: int| 0 <= k < before.len() ==> is_white_space(#[trigger] before[k]),
        forall|k: int| 0 <= k < after.len() ==> is_white_space(#[trigger] after[k]),
        core.len() > 0 ==> !is_white_space(core.first()) && !is_white_space(core.last()),
    ensures
        trimmed(before + core + after) == core,
{
    lemma_trimmed_start_of(before, core + after);
    assert(before + (core + after) =~= before + core + after);
    if core.len() == 0 {
        assert(core + after =~= after + core);
        lemma_trimmed_start_of(after, core);
    } else {
        assert((core + after).first() == core.first());
        lemma_trimmed_end_of(core, after);
    }
}

proof fn lemma_trimmed_start_of(before: Seq<char>, rest: Seq<char>)
    requires
        forall|k: int| 0 <= k < before.len() ==> is_white_space(#[trigger] before[k]),
    ensures
        trimmed_start(before + rest) == trimmed_start(rest),
    decreases before.len(),
{
    if before.len() == 0 {
        assert(before + rest =~= rest);
    } else {
        assert((before + rest).first() == before[0]);
        assert((before + rest).drop_first() =~= before.drop_first() + rest);
        lemma_trimmed_start_of(before.drop_first(), rest);
    }
}

proof fn lemma_trimmed_end_of(core: Seq<char>, after: Seq<char>)
    requires
        forall|k: int| 0 <= k < after.len() ==> is_white_space(#[trigger] after[k]),
        core.len() > 0 ==> !is_white_space(core.last()),
    ensures
        trimmed_end(core + after) == core,
    decreases after.len(),
{
    if after.len() == 0 {
        assert(core + after =~= core);
    } else {
        assert((core + after).last() == after[after.len() - 1]);
        assert((core + after).drop_last() =~= core + after.drop_last());
        lemma_trimmed_end_of(core, after.drop_last());
    }
}

/// A run of a character is taken from the start of a text, whatever follows it.
pub proof fn law_leading_run_is_dropped(run: Seq<char>, rest: Seq<char>, c: char)
    requires
        forall|k: int| 0 <= k < run.len() ==> #[trigger] run[k] == c,
        rest.len() > 0 ==> rest.first() != c,
    ensures
        without_leading(run + rest, c) == rest,
    decreases run.len(),
{
    if run.len() == 0 {
        assert(run + rest =~= rest);
    } else {
        assert((run + rest).first() == run[0]);
        assert((run + rest).drop_first() =~= run.drop_first() + rest);
        law_leading_run_is_dropped(run.drop_first(), rest, c);
    }
}

/// A run of a character is taken from the end of a text, whatever stands before it.
pub proof fn law_trailing_run_is_dropped(rest: Seq<char>, run: Seq<char>, c: char)
    requires
        forall|k: int| 0 <= k < run.len() ==> #[trigger] run[k] == c,
        rest.len() > 0 ==> rest.last() != c,
    ensures
        without_trailing(rest + run, c) == rest,
    decreases run.len(),
{
    if run.len() == 0 {
        assert(rest + run =~= rest);
    } else {
        assert((rest + run).last() == run[run.len() - 1]);
        assert((rest + run).drop_last() =~= rest + run.drop_last());
        law_trailing_run_is_dropped(rest, run.drop_last(), c);
    }
}

/// Only the ASCII capitals of a text change when it is put in small letters, each to the letter
/// that stands for it.
pub proof fn law_only_ascii_capitals_change(s: Seq<char>, k: int)
    requires
        0 <= k < s.len(),
    ensures
        lowercase(s).len() == s.len(),
        if 'A' <= s[k] && s[k] <= 'Z' {
            lowercase(s)[k] as int - 'a' as int == s[k] as int - 'A' as int
        } else {
            lowercase(s)[k] == s[k]
        },
{
}

/// What stands after the last of a character is all that follows it.
pub proof fn law_after_last_is_the_rest(before: Seq<char>, c: char, after: Seq<char>)
    requires
        !after.contains(c),
    ensures
        after_last(before.push(c) + after, c) == after,
{
    lemma_after_last(before, c, after);
}

/// The number that decimal digits stand for.
pub open spec fn decimal_value(digits: Seq<char>) -> int
    decreases digits.len(),
{
    if digits.len() == 0 {
        0
    } else {
        10 * decimal_value(digits.drop_last()) + (digits.last() as int - '0' as int)
    }
}

/// A number that is written down reads back; it is written with digits only, and without a zero
/// before them.
pub proof fn law_numbers_read_back(n: nat)
    ensures
        decimal_value(decimal(n)) == n,
        decimal(n).len() > 0,
        forall|k: int| 0 <= k < decimal(n).len() ==> '0' <= #[trigger] decimal(n)[k] <= '9',
        decimal(n).len() > 1 ==> decimal(n)[0] != '0',
    decreases n,
{
    lemma_decimal_digits(n);
    if n < 10 {
        reveal_with_fuel(decimal_value, 2);
        assert(decimal(n).drop_last() =~= Seq::empty());
    } else {
        law_numbers_read_back(n / 10);
        assert(decimal(n).drop_last() =~= decimal(n / 10));
        assert(decimal(n)[0] == decimal(n / 10)[0]);
        if decimal(n / 10).len() == 1 {
            reveal_with_fuel(decimal_value, 2);
            assert(decimal(n / 10).drop_last() =~= Seq::empty());
        }
    }
}

/// A joined path ends with the name. An absolute name is all of it. Before a relative one stands
/// the base, with one slash between them and none added where the base ends with it.
pub proof fn law_joined_paths(base: Seq<char>, name: Seq<char>)
    ensures
        ({
            let path = joined_path(base, name);
            let front = path.take(path.len() - name.len());
            &&& path.len() >= name.len()
            &&& path.skip(path.len() - name.len()) == name
            &&& name.len() > 0 && name[0] == '/' ==> front.len() == 0
            &&& name.len() == 0 || name[0] != '/' ==> {
                &&& base.len() <= front.len() <= base.len() + 1
                &&& front.take(base.len() as int) == base
                &&& base.len() > 0 ==> front.last() == '/'
                &&& base.len() == 0 || base.last() == '/' ==> front.len() == base.len()
            }
        }),
{
}

/// A text with something other than white space in it is not trimmed away.
pub(crate) proof fn lemma_trimmed_keeps_core(s: Seq<char>, k: int)
    requires
        0 <= k < s.len(),
        !is_white_space(s[k]),
    ensures
        trimmed(s).len() > 0,
{
    lemma_trimmed_start_keeps(s, k);
    let start = trimmed_start(s);
    if trimmed_end(start).len() == 0 {
        lemma_trimmed_end_keeps(start, 0);
    }
}

proof fn lemma_trimmed_start_keeps(s: Seq<char>, k: int)
    requires
        0 <= k < s.len(),
        !is_white_space(s[k]),
    ensures
        trimmed_start(s).len() > 0,
        !is_white_space(trimmed_start(s)[0]),
    decreases s.len(),
{
    if is_white_space(s.first()) {
        lemma_trimmed_start_keeps(s.drop_first(), k - 1);
    }
}

proof fn lemma_trimmed_end_keeps(s: Seq<char>, k: int)
    requires
        0 <= k < s.len(),
        !is_white_space(s[k]),
    ensures
        trimmed_end(s).len() > 0,
    decreases s.len(),
{
    if is_white_space(s.last()) {
        lemma_trimmed_end_keeps(s.drop_last(), k);
    }
}

} // verus!
