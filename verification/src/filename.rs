use vstd::prelude::*;
use vstd::string::*;
use vstd::set_lib::{lemma_int_range, lemma_len_subset, lemma_map_size, set_int_range};
use vstd::relations::injective_on;

verus! {

/// The index of the last `.` in `name`, or -1 where it holds none.
pub open spec fn dot_index(name: Seq<char>) -> int
    decreases name.len(),
{
    if name.len() == 0 {
        -1
    } else if name.last() == '.' {
        name.len() - 1
    } else {
        dot_index(name.drop_last())
    }
}

/// The part of `name` before its last `.`; all of it where it holds none.
pub open spec fn stem_of(name: Seq<char>) -> Seq<char> {
    if dot_index(name) < 0 {
        name
    } else {
        name.take(dot_index(name))
    }
}

/// The part of `name` from its last `.` on, the `.` included; empty where it holds none.
pub open spec fn extension_of(name: Seq<char>) -> Seq<char> {
    if dot_index(name) < 0 {
        Seq::empty()
    } else {
        name.skip(dot_index(name))
    }
}

/// The character of a decimal digit.
pub open spec fn digit_char(d: nat) -> char {
    if d == 0 {
        '0'
    } else if d == 1 {
        '1'
    } else if d == 2 {
        '2'
    } else if d == 3 {
        '3'
    } else if d == 4 {
        '4'
    } else if d == 5 {
        '5'
    } else if d == 6 {
        '6'
    } else if d == 7 {
        '7'
    } else if d == 8 {
        '8'
    } else {
        '9'
    }
}

/// The decimal digit that a character stands for; zero for every other character.
pub open spec fn digit_value(c: char) -> nat {
    if c == '1' {
        1
    } else if c == '2' {
        2
    } else if c == '3' {
        3
    } else if c == '4' {
        4
    } else if c == '5' {
        5
    } else if c == '6' {
        6
    } else if c == '7' {
        7
    } else if c == '8' {
        8
    } else if c == '9' {
        9
    } else {
        0
    }
}

/// The decimal numeral of `n`, without leading zeros.
pub open spec fn decimal(n: nat) -> Seq<char>
    decreases n,
{
    if n < 10 {
        seq![digit_char(n)]
    } else {
        decimal(n / 10).push(digit_char(n % 10))
    }
}

/// The decimal numeral of `n`, filled with zeros on the left to three digits.
pub open spec fn padded(n: nat) -> Seq<char> {
    if n < 10 {
        seq!['0', '0'] + decimal(n)
    } else if n < 100 {
        seq!['0'] + decimal(n)
    } else {
        decimal(n)
    }
}

/// The number that a decimal numeral stands for.
pub open spec fn numeral_value(digits: Seq<char>) -> nat
    decreases digits.len(),
{
    if digits.len() == 0 {
        0
    } else {
        numeral_value(digits.drop_last()) * 10 + digit_value(digits.last())
    }
}

/// The name `name` with the number `suffix` set between its stem and its extension.
pub open spec fn numbered(name: Seq<char>, suffix: nat) -> Seq<char> {
    stem_of(name) + seq!['-'] + padded(suffix) + extension_of(name)
}

/// Whether `suffix` is the first number, counting from one, whose numbered name is
/// not among `existing`.
pub open spec fn is_free_suffix(existing: Seq<Seq<char>>, name: Seq<char>, suffix: nat) -> bool {
    &&& 1 <= suffix
    &&& !existing.contains(numbered(name, suffix))
    &&& forall|t: nat| 1 <= t < suffix ==> existing.contains(#[trigger] numbered(name, t))
}

/// The first number, counting from one, whose numbered name is not among `existing`.
pub open spec fn free_suffix(existing: Seq<Seq<char>>, name: Seq<char>) -> nat {
    choose|s: nat| is_free_suffix(existing, name, s)
}

/// The first numbered form of `name` that is not among `existing`.
pub open spec fn free_name(existing: Seq<Seq<char>>, name: Seq<char>) -> Seq<char> {
    numbered(name, free_suffix(existing, name))
}

/// The names that a list of strings holds.
pub open spec fn names_of(list: Seq<String>) -> Seq<Seq<char>> {
    Seq::new(list.len(), |i: int| list[i]@)
}

/// The last `.` of a name is a `.`, and none follows it.
pub proof fn lemma_dot_index(name: Seq<char>)
    ensures
        -1 <= dot_index(name) < name.len(),
        dot_index(name) >= 0 ==> name[dot_index(name)] == '.',
        forall|j: int| dot_index(name) < j < name.len() ==> name[j] != '.',
    decreases name.len(),
{
    if name.len() > 0 && name.last() != '.' {
        lemma_dot_index(name.drop_last());
        assert forall|j: int| dot_index(name) < j < name.len() implies name[j] != '.' by {
            if j < name.len() - 1 {
                assert(name.drop_last()[j] == name[j]);
            }
        }
    }
}

/// A name is its stem followed by its extension.
pub proof fn lemma_stem_and_extension(name: Seq<char>)
    ensures
        stem_of(name) + extension_of(name) == name,
{
    lemma_dot_index(name);
    if dot_index(name) >= 0 {
        assert(name.take(dot_index(name)) + name.skip(dot_index(name)) =~= name);
    } else {
        assert(name + Seq::<char>::empty() =~= name);
    }
}

/// A decimal numeral stands for the number it was written for.
pub proof fn lemma_decimal_value(n: nat)
    ensures
        numeral_value(decimal(n)) == n,
        decimal(n).len() >= 1,
        n >= 100 ==> decimal(n).len() >= 3,
        10 <= n < 100 ==> decimal(n).len() == 2,
        n < 10 ==> decimal(n).len() == 1,
    decreases n,
{
    if n < 10 {
        assert(decimal(n).drop_last() =~= Seq::<char>::empty());
        assert(numeral_value(decimal(n).drop_last()) == 0);
    } else {
        lemma_decimal_value(n / 10);
        assert(decimal(n).drop_last() =~= decimal(n / 10));
        assert(decimal(n).last() == digit_char(n % 10));
    }
}

/// A zero in front of a numeral does not change the number it stands for.
pub proof fn lemma_leading_zero(digits: Seq<char>)
    ensures
        numeral_value(seq!['0'] + digits) == numeral_value(digits),
    decreases digits.len(),
{
    let z = seq!['0'];
    if digits.len() == 0 {
        assert(z + digits =~= z);
        assert(z.drop_last() =~= Seq::<char>::empty());
        assert(numeral_value(z.drop_last()) == 0);
    } else {
        lemma_leading_zero(digits.drop_last());
        assert((z + digits).drop_last() =~= z + digits.drop_last());
        assert((z + digits).last() == digits.last());
    }
}

/// A padded numeral stands for the number it was written for, and has at least three
/// digits.
pub proof fn lemma_padded_value(n: nat)
    ensures
        numeral_value(padded(n)) == n,
        padded(n).len() >= 3,
{
    lemma_decimal_value(n);
    if n < 10 {
        lemma_leading_zero(decimal(n));
        lemma_leading_zero(seq!['0'] + decimal(n));
        assert(seq!['0'] + (seq!['0'] + decimal(n)) =~= seq!['0', '0'] + decimal(n));
    } else if n < 100 {
        lemma_leading_zero(decimal(n));
    }
}

/// Two different numbers give two different numbered names.
pub proof fn lemma_numbered_injective(name: Seq<char>, s: nat, t: nat)
    requires
        numbered(name, s) == numbered(name, t),
    ensures
        s == t,
{
    let front = stem_of(name) + seq!['-'];
    let back = extension_of(name);
    let a = numbered(name, s);
    let b = numbered(name, t);
    assert(a.len() == front.len() + padded(s).len() + back.len());
    assert(b.len() == front.len() + padded(t).len() + back.len());
    assert(a.subrange(front.len() as int, (front.len() + padded(s).len()) as int) =~= padded(s));
    assert(b.subrange(front.len() as int, (front.len() + padded(t).len()) as int) =~= padded(t));
    lemma_padded_value(s);
    lemma_padded_value(t);
}

/// Where the numbered names of the numbers one to `n` are all among `existing`,
/// `existing` holds at least `n` names.
pub proof fn lemma_taken_suffixes_bound(existing: Seq<Seq<char>>, name: Seq<char>, n: nat)
    requires
        forall|t: nat| 1 <= t <= n ==> existing.contains(#[trigger] numbered(name, t)),
    ensures
        n <= existing.len(),
{
    let numbers = set_int_range(1, n as int + 1);
    let f = |t: int| numbered(name, t as nat);
    let image = numbers.map(f);
    lemma_int_range(1, n as int + 1);
    assert(injective_on(f, numbers)) by {
        assert forall|x: int, y: int|
            numbers.contains(x) && numbers.contains(y) && #[trigger] f(x) == #[trigger] f(
                y,
            ) implies x == y by {
            lemma_numbered_injective(name, x as nat, y as nat);
        }
    }
    lemma_map_size(numbers, image, f);
    assert(image.subset_of(existing.to_set())) by {
        assert forall|v: Seq<char>| image.contains(v) implies existing.to_set().contains(v) by {
            let t = choose|t: int| numbers.contains(t) && f(t) == v;
            assert(existing.contains(numbered(name, t as nat)));
        }
    }
    broadcast use vstd::seq_lib::seq_to_set_is_finite;

    lemma_len_subset(image, existing.to_set());
    existing.lemma_cardinality_of_set();
}

proof fn lemma_free_suffix_from(existing: Seq<Seq<char>>, name: Seq<char>, s: nat)
    requires
        1 <= s,
        forall|t: nat| 1 <= t < s ==> existing.contains(#[trigger] numbered(name, t)),
    ensures
        exists|r: nat| r <= existing.len() + 1 && is_free_suffix(existing, name, r),
    decreases existing.len() + 1 - s,
{
    lemma_taken_suffixes_bound(existing, name, (s - 1) as nat);
    if existing.contains(numbered(name, s)) {
        lemma_taken_suffixes_bound(existing, name, s);
        lemma_free_suffix_from(existing, name, s + 1);
    } else {
        assert(is_free_suffix(existing, name, s));
    }
}

/// Every list of names leaves a number free, and the first free number is at most
/// one more than the list is long.
pub proof fn lemma_free_suffix(existing: Seq<Seq<char>>, name: Seq<char>)
    ensures
        is_free_suffix(existing, name, free_suffix(existing, name)),
        free_suffix(existing, name) <= existing.len() + 1,
{
    lemma_free_suffix_from(existing, name, 1);
    let r = choose|r: nat| r <= existing.len() + 1 && is_free_suffix(existing, name, r);
    let s = free_suffix(existing, name);
    assert(is_free_suffix(existing, name, s));
    if s < r {
        assert(existing.contains(numbered(name, s)));
    } else if r < s {
        assert(existing.contains(numbered(name, r)));
    }
}

/// The name chosen against a list is not in the list; and once it has been added to
/// the list, the next name chosen differs from it and is in neither.
pub proof fn lemma_successive_names_differ(existing: Seq<Seq<char>>, name: Seq<char>)
    ensures
        ({
            let first = free_name(existing, name);
            let second = free_name(existing.push(first), name);
            &&& !existing.contains(first)
            &&& !existing.contains(second)
            &&& first != second
        }),
{
    let first = free_name(existing, name);
    let grown = existing.push(first);
    let second = free_name(grown, name);
    lemma_free_suffix(existing, name);
    lemma_free_suffix(grown, name);
    assert(grown[existing.len() as int] == first);
    assert(grown.contains(first));
    if existing.contains(second) {
        let i = choose|i: int| 0 <= i < existing.len() && existing[i] == second;
        assert(grown[i] == second);
    }
}

/// Splits a file name at its last `.` into its stem and its extension; the
/// extension keeps the `.`, and is empty where the name holds none.
pub fn split_filename(name: &str) -> (out: (String, String))
    ensures
        out.0@ == stem_of(name@),
        out.1@ == extension_of(name@),
{
    let len: usize = name.unicode_len();
    let mut i: usize = len;
    proof {
        lemma_dot_index(name@);
    }
    while i > 0
        invariant
            i <= len,
            len == name@.len(),
            forall|j: int| i <= j < len ==> name@[j] != '.',
        decreases i,
    {
        if name.get_char(i - 1) == '.' {
            let stem = name.substring_char(0, i - 1);
            let extension = name.substring_char(i - 1, len);
            proof {
                lemma_dot_index(name@);
                assert(dot_index(name@) == i - 1);
                assert(name@.subrange(0, i - 1) =~= name@.take(i - 1));
                assert(name@.subrange(i - 1, len as int) =~= name@.skip(i - 1));
            }
            return (String::from_str(stem), String::from_str(extension));
        }
        i = i - 1;
    }
    proof {
        lemma_dot_index(name@);
        assert(dot_index(name@) < 0);
    }
    (String::from_str(name), String::new())
}

/// The text of one decimal digit.
fn digit_text(d: u8) -> (out: &'static str)
    requires
        d < 10,
    ensures
        out@ == seq![digit_char(d as nat)],
{
    proof {
        reveal_strlit("0");
        reveal_strlit("1");
        reveal_strlit("2");
        reveal_strlit("3");
        reveal_strlit("4");
        reveal_strlit("5");
        reveal_strlit("6");
        reveal_strlit("7");
        reveal_strlit("8");
        reveal_strlit("9");
    }
    let out = if d == 0 {
        "0"
    } else if d == 1 {
        "1"
    } else if d == 2 {
        "2"
    } else if d == 3 {
        "3"
    } else if d == 4 {
        "4"
    } else if d == 5 {
        "5"
    } else if d == 6 {
        "6"
    } else if d == 7 {
        "7"
    } else if d == 8 {
        "8"
    } else {
        "9"
    };
    assert(out@ =~= seq![digit_char(d as nat)]);
    out
}

/// Writes the decimal numeral of `n` at the end of `out`.
fn append_decimal(out: &mut String, n: u128)
    ensures
        final(out)@ == old(out)@ + decimal(n as nat),
    decreases n,
{
    if n >= 10 {
        append_decimal(out, n / 10);
    }
    let digit: u8 = (n % 10) as u8;
    out.append(digit_text(digit));
    proof {
        if n >= 10 {
            assert(old(out)@ + decimal((n / 10) as nat) + seq![digit_char((n % 10) as nat)]
                =~= old(out)@ + decimal(n as nat));
        }
    }
}

/// Sets the number `suffix` between a stem and an extension.
fn join_numbered(stem: &str, extension: &str, suffix: u128) -> (out: String)
    ensures
        out@ == stem@ + seq!['-'] + padded(suffix as nat) + extension@,
{
    let mut out = String::from_str(stem);
    proof {
        reveal_strlit("-");
        reveal_strlit("-0");
        reveal_strlit("-00");
    }
    if suffix < 10 {
        out.append("-00");
        assert(out@ =~= stem@ + seq!['-'] + seq!['0', '0']);
    } else if suffix < 100 {
        out.append("-0");
        assert(out@ =~= stem@ + seq!['-'] + seq!['0']);
    } else {
        out.append("-");
        assert(out@ =~= stem@ + seq!['-']);
    }
    append_decimal(&mut out, suffix);
    assert(out@ =~= stem@ + seq!['-'] + padded(suffix as nat));
    out.append(extension);
    out
}

/// Returns `name` with the number `suffix`, written with at least three digits, set
/// between its stem and its extension.
pub fn numbered_filename(name: &str, suffix: u64) -> (out: String)
    ensures
        out@ == numbered(name@, suffix as nat),
{
    let (stem, extension) = split_filename(name);
    join_numbered(stem.as_str(), extension.as_str(), suffix as u128)
}

/// Tells whether `name` is one of `existing`.
fn is_listed(existing: &Vec<String>, name: &String) -> (out: bool)
    ensures
        out == names_of(existing@).contains(name@),
{
    let mut i: usize = 0;
    while i < existing.len()
        invariant
            i <= existing.len(),
            forall|j: int| 0 <= j < i ==> names_of(existing@)[j] != name@,
        decreases existing.len() - i,
    {
        if existing[i] == *name {
            assert(names_of(existing@)[i as int] == name@);
            return true;
        }
        i = i + 1;
    }
    false
}

/// Chooses the name under which to store a new file beside `existing`: the first
/// numbered form of `name`, counting from one, that is not among them.
pub fn first_free_filename(name: &str, existing: &Vec<String>) -> (out: String)
    ensures
        out@ == free_name(names_of(existing@), name@),
        !names_of(existing@).contains(out@),
{
    let (stem, extension) = split_filename(name);
    let ghost listed = names_of(existing@);
    proof {
        lemma_free_suffix(listed, name@);
    }
    let mut suffix: u128 = 1;
    loop
        invariant
            listed == names_of(existing@),
            stem@ == stem_of(name@),
            extension@ == extension_of(name@),
            1 <= suffix <= existing.len() + 1,
            forall|t: nat| 1 <= t < suffix ==> listed.contains(#[trigger] numbered(name@, t)),
            is_free_suffix(listed, name@, free_suffix(listed, name@)),
        decreases existing.len() + 1 - suffix,
    {
        let candidate = join_numbered(stem.as_str(), extension.as_str(), suffix);
        if !is_listed(existing, &candidate) {
            proof {
                let s = free_suffix(listed, name@);
                assert(is_free_suffix(listed, name@, suffix as nat));
                if s < suffix {
                    assert(listed.contains(numbered(name@, s)));
                } else if suffix < s {
                    assert(listed.contains(numbered(name@, suffix as nat)));
                }
            }
            return candidate;
        }
        proof {
            lemma_taken_suffixes_bound(listed, name@, suffix as nat);
        }
        suffix = suffix + 1;
    }
}

} // verus!
