//! The text by which a running macro is known: the index of its collection and its own index in it,
//! in decimal, with an underscore between them.

use vstd::prelude::*;
use vstd::string::{StrSliceExecFns, StringExecFns};

verus! {

/// The decimal digit for `d`.
pub open spec fn digit_char(d: nat) -> char
    recommends
        d < 10,
{
    (('0' as nat) + d) as char
}

/// `n` in decimal, without leading zeros.
pub open spec fn decimal(n: nat) -> Seq<char>
    decreases n,
{
    if n < 10 {
        seq![digit_char(n)]
    } else {
        decimal(n / 10).push(digit_char(n % 10))
    }
}

/// The identifier of the macro at `macro_index` in the collection at `collection_index`.
pub open spec fn macro_id(collection_index: nat, macro_index: nat) -> Seq<char> {
    decimal(collection_index) + seq!['_'] + decimal(macro_index)
}

/// Whether `c` is one of the ten decimal digits.
pub open spec fn is_digit(c: char) -> bool {
    '0' <= c <= '9'
}

/// The number that the digits of `s` stand for.
pub open spec fn digits_value(s: Seq<char>) -> nat
    decreases s.len(),
{
    if s.len() == 0 {
        0
    } else {
        digits_value(s.drop_last()) * 10 + (s.last() as nat - '0' as nat) as nat
    }
}

/// `s` without a leading plus sign.
pub open spec fn without_plus(s: Seq<char>) -> Seq<char> {
    if s.len() > 0 && s[0] == '+' {
        s.skip(1)
    } else {
        s
    }
}

/// The index that `s` spells: one or more digits, perhaps after a plus sign, of a value that fits.
pub open spec fn index_value(s: Seq<char>) -> Option<usize> {
    let digits = without_plus(s);
    if digits.len() > 0 && (forall|i: int| 0 <= i < digits.len() ==> is_digit(#[trigger] digits[i]))
        && digits_value(digits) <= usize::MAX {
        Some(digits_value(digits) as usize)
    } else {
        None
    }
}

/// Whether `s` holds exactly one underscore, at position `i`.
pub open spec fn separated_at(s: Seq<char>, i: int) -> bool {
    &&& 0 <= i < s.len()
    &&& s[i] == '_'
    &&& forall|j: int| 0 <= j < s.len() && j != i ==> s[j] != '_'
}

/// The two indices that the identifier `s` names, if it is one.
pub open spec fn parsed_id(s: Seq<char>) -> Option<(usize, usize)> {
    if exists|i: int| separated_at(s, i) {
        let i = choose|i: int| separated_at(s, i);
        match (index_value(s.take(i)), index_value(s.skip(i + 1))) {
            (Some(c), Some(m)) => Some((c, m)),
            _ => None,
        }
    } else {
        None
    }
}

/// A digit as text.
fn digit_text(d: usize) -> (text: &'static str)
    requires
        d < 10,
    ensures
        text@ == seq![digit_char(d as nat)],
{
    proof {
        reveal_strlit("0");
        reveal_strlit("1");
        reveal_strlit("2");
        reveal_strlit("3");
        reveal_strlit("4");
        reveal_strlit("5");
        reveal_strlit("6");
        reveal_strlit("7");
        reveal_strlit("8");
        reveal_strlit("9");
    }
    let text: &'static str = match d {
        0 => "0",
        1 => "1",
        2 => "2",
        3 => "3",
        4 => "4",
        5 => "5",
        6 => "6",
        7 => "7",
        8 => "8",
        _ => "9",
    };
    assert(text@ =~= seq![digit_char(d as nat)]);
    text
}

/// Appends `n` in decimal.
fn append_decimal(out: &mut String, n: usize)
    ensures
        final(out)@ == old(out)@ + decimal(n as nat),
    decreases n,
{
    if n < 10 {
        out.append(digit_text(n));
    } else {
        append_decimal(out, n / 10);
        let ghost before = out@;
        out.append(digit_text(n % 10));
        assert(out@ =~= old(out)@ + decimal(n as nat)) by {
            assert(out@ == before + seq![digit_char((n % 10) as nat)]);
        }
    }
}

/// The identifier of a macro, from the index of its collection and its own.
pub fn generate_macro_id(collection_index: usize, macro_index: usize) -> (id: String)
    ensures
        id@ == macro_id(collection_index as nat, macro_index as nat),
{
    let mut id = String::new();
    append_decimal(&mut id, collection_index);
    proof {
        reveal_strlit("_");
    }
    id.append("_");
    append_decimal(&mut id, macro_index);
    assert(id@ =~= macro_id(collection_index as nat, macro_index as nat));
    id
}

/// More digits never make a smaller number.
proof fn lemma_prefix_value(s: Seq<char>, i: int, j: int)
    requires
        0 <= i <= j <= s.len(),
        forall|k: int| 0 <= k < j ==> is_digit(#[trigger] s[k]),
    ensures
        digits_value(s.take(i)) <= digits_value(s.take(j)),
    decreases j - i,
{
    if i < j {
        lemma_prefix_value(s, i, j - 1);
        assert(s.take(j).drop_last() =~= s.take(j - 1));
    }
}

/// The index that the characters of `s` from `from` up to `to` spell.
fn parse_index(s: &str, from: usize, to: usize) -> (index: Option<usize>)
    requires
        from <= to <= s@.len(),
    ensures
        index == index_value(s@.subrange(from as int, to as int)),
{
    let ghost text = s@.subrange(from as int, to as int);
    let ghost digits = without_plus(text);
    let start: usize = if from < to && s.get_char(from) == '+' {
        from + 1
    } else {
        from
    };
    assert(digits =~= s@.subrange(start as int, to as int));
    if start == to {
        return None;
    }
    let mut value: usize = 0;
    assert(digits.take(0).len() == 0);
    for i in start..to
        invariant
            from <= start < to <= s@.len(),
            text == s@.subrange(from as int, to as int),
            digits == without_plus(text),
            digits == s@.subrange(start as int, to as int),
            value == digits_value(digits.take(i - start)),
            forall|k: int| 0 <= k < i - start ==> is_digit(#[trigger] digits[k]),
    {
        let c = s.get_char(i);
        assert(c == digits[i - start]);
        if !('0' <= c && c <= '9') {
            assert(!is_digit(digits[i - start]));
            return None;
        }
        let d: usize = (c as u32 - '0' as u32) as usize;
        let ghost longer = digits.take(i - start + 1);
        assert(longer.drop_last() =~= digits.take(i - start));
        assert(digits_value(longer) == value * 10 + d);
        proof {
            if (forall|k: int| 0 <= k < digits.len() ==> is_digit(#[trigger] digits[k])) {
                lemma_prefix_value(digits, i - start + 1, digits.len() as int);
                assert(digits.take(digits.len() as int) =~= digits);
            }
        }
        match value.checked_mul(10) {
            Some(tens) => match tens.checked_add(d) {
                Some(sum) => {
                    value = sum;
                },
                None => {
                    return None;
                },
            },
            None => {
                return None;
            },
        }
    }
    assert(digits.take(digits.len() as int) =~= digits);
    Some(value)
}

/// Reads an identifier back: the two indices around the only underscore, or nothing if the text
/// has another shape.
pub fn parse_macro_id(macro_id: &str) -> (indices: Option<(usize, usize)>)
    ensures
        indices == parsed_id(macro_id@),
{
    let n = macro_id.unicode_len();
    let mut first: usize = 0;
    while first < n && macro_id.get_char(first) != '_'
        invariant
            n == macro_id@.len(),
            first <= n,
            forall|j: int| 0 <= j < first ==> macro_id@[j] != '_',
        decreases n - first,
    {
        first = first + 1;
    }
    if first == n {
        assert(forall|i: int| !separated_at(macro_id@, i));
        return None;
    }
    for other in first + 1..n
        invariant
            n == macro_id@.len(),
            first < n,
            macro_id@[first as int] == '_',
            forall|j: int| 0 <= j < other && j != first ==> macro_id@[j] != '_',
    {
        if macro_id.get_char(other) == '_' {
            assert(forall|i: int| !separated_at(macro_id@, i)) by {
                assert(macro_id@[other as int] == '_' && macro_id@[first as int] == '_');
            }
            return None;
        }
    }
    proof {
        assert(separated_at(macro_id@, first as int));
        let i = choose|i: int| separated_at(macro_id@, i);
        assert(i == first);
        assert(macro_id@.take(i) =~= macro_id@.subrange(0, first as int));
        assert(macro_id@.skip(i + 1) =~= macro_id@.subrange(first + 1, n as int));
    }
    match (parse_index(macro_id, 0, first), parse_index(macro_id, first + 1, n)) {
        (Some(c), Some(m)) => Some((c, m)),
        _ => None,
    }
}

/// Decimal text is one or more digits that stand for the number written.
pub proof fn law_decimal_reads_back(n: nat)
    ensures
        decimal(n).len() > 0,
        forall|i: int| 0 <= i < decimal(n).len() ==> is_digit(#[trigger] decimal(n)[i]),
        digits_value(decimal(n)) == n,
    decreases n,
{
    if n < 10 {
        let text = decimal(n);
        assert(text.drop_last() =~= Seq::empty());
        assert(digits_value(text.drop_last()) == 0);
    } else {
        law_decimal_reads_back(n / 10);
        let text = decimal(n);
        assert(text.drop_last() =~= decimal(n / 10));
        assert(text.last() == digit_char(n % 10));
        assert forall|i: int| 0 <= i < text.len() implies is_digit(#[trigger] text[i]) by {
            if i < text.len() - 1 {
                assert(text[i] == decimal(n / 10)[i]);
            }
        }
    }
}

/// Reading back the identifier of a macro gives the two indices that it was made of.
pub proof fn law_identifier_reads_back(collection_index: usize, macro_index: usize)
    ensures
        parsed_id(macro_id(collection_index as nat, macro_index as nat)) == Some(
            (collection_index, macro_index),
        ),
{
    let left = decimal(collection_index as nat);
    let right = decimal(macro_index as nat);
    let id = macro_id(collection_index as nat, macro_index as nat);
    law_decimal_reads_back(collection_index as nat);
    law_decimal_reads_back(macro_index as nat);
    assert forall|j: int| 0 <= j < id.len() && j != left.len() implies id[j] != '_' by {
        if j < left.len() {
            assert(id[j] == left[j]);
        } else {
            assert(id[j] == right[j - left.len() - 1]);
        }
    }
    assert(separated_at(id, left.len() as int));
    let i = choose|i: int| separated_at(id, i);
    assert(i == left.len());
    assert(id.take(i) =~= left);
    assert(id.skip(i + 1) =~= right);
    assert(is_digit(left[0]) && is_digit(right[0]));
    assert(without_plus(left) == left && without_plus(right) == right);
}

/// Two macros at different places never share an identifier.
pub proof fn law_identifiers_differ(c1: usize, m1: usize, c2: usize, m2: usize)
    requires
        macro_id(c1 as nat, m1 as nat) == macro_id(c2 as nat, m2 as nat),
    ensures
        c1 == c2 && m1 == m2,
{
    law_identifier_reads_back(c1, m1);
    law_identifier_reads_back(c2, m2);
}

/// A number below ten is written as the one digit for it.
pub proof fn law_one_digit(d: nat)
    requires
        d < 10,
    ensures
        decimal(d).len() == 1,
        decimal(d)[0] as nat == '0' as nat + d,
{
}

/// Ten times a number, and a digit, is written as the number followed by the digit.
pub proof fn law_one_more_digit(n: nat, d: nat)
    requires
        n > 0,
        d < 10,
    ensures
        decimal(n * 10 + d) == decimal(n) + decimal(d),
{
    assert((n * 10 + d) / 10 == n && (n * 10 + d) % 10 == d);
    assert(decimal(n * 10 + d) =~= decimal(n) + decimal(d));
}

/// An identifier is the two indices in decimal around an underscore, the collection first.
pub proof fn law_identifier_spells_indices(c: nat, m: nat)
    ensures
        ({
            let id = macro_id(c, m);
            let n = decimal(c).len() as int;
            &&& id.len() == n + 1 + decimal(m).len()
            &&& id.take(n) == decimal(c)
            &&& id[n] == '_'
            &&& id.skip(n + 1) == decimal(m)
        }),
{
    let id = macro_id(c, m);
    let n = decimal(c).len() as int;
    assert(id.take(n) =~= decimal(c));
    assert(id.skip(n + 1) =~= decimal(m));
}

/// No digits stand for 0, and one more digit makes ten times the number and the digit.
pub proof fn law_value_of_one_more_digit(s: Seq<char>, c: char)
    requires
        '0' <= c <= '9',
    ensures
        digits_value(Seq::empty()) == 0,
        digits_value(s.push(c)) == digits_value(s) * 10 + (c as nat - '0' as nat),
{
    assert(s.push(c).drop_last() =~= s);
}

/// One or more digits, alone or after a plus sign, are an index if their value fits.
pub proof fn law_digits_are_an_index(digits: Seq<char>)
    requires
        digits.len() > 0,
        forall|i: int| 0 <= i < digits.len() ==> '0' <= #[trigger] digits[i] <= '9',
    ensures
        digits_value(digits) <= usize::MAX ==> index_value(digits) == Some(
            digits_value(digits) as usize,
        ) && index_value(seq!['+'] + digits) == Some(digits_value(digits) as usize),
        digits_value(digits) > usize::MAX ==> index_value(digits) is None && index_value(
            seq!['+'] + digits,
        ) is None,
{
    assert(digits[0] != '+');
    assert((seq!['+'] + digits).skip(1) =~= digits);
}

/// What is an index is digits, at least one, perhaps after one plus sign.
pub proof fn law_index_is_digits(s: Seq<char>)
    requires
        index_value(s) is Some,
    ensures
        s.len() > 0,
        s[0] == '+' ==> s.len() > 1,
        s[0] == '+' || '0' <= s[0] <= '9',
        forall|i: int| 0 < i < s.len() ==> '0' <= #[trigger] s[i] <= '9',
{
    let digits = without_plus(s);
    assert(s.len() > 0);
    assert forall|i: int| 0 < i < s.len() implies '0' <= #[trigger] s[i] <= '9' by {
        if s[0] == '+' {
            assert(digits[i - 1] == s[i]);
        } else {
            assert(digits[i] == s[i]);
        }
        assert(is_digit(s[i]));
    }
    if s[0] != '+' {
        assert(is_digit(digits[0]));
    }
}

/// A text with one underscore names the two indices around it, if both are indices.
pub proof fn law_identifier_of_two_parts(left: Seq<char>, right: Seq<char>)
    requires
        !left.contains('_'),
        !right.contains('_'),
    ensures
        index_value(left) is Some && index_value(right) is Some ==> parsed_id(
            left + seq!['_'] + right,
        ) == Some((index_value(left)->Some_0, index_value(right)->Some_0)),
        index_value(left) is None || index_value(right) is None ==> parsed_id(
            left + seq!['_'] + right,
        ) is None,
{
    let s = left + seq!['_'] + right;
    let n = left.len() as int;
    assert forall|j: int| 0 <= j < s.len() && j != n implies s[j] != '_' by {
        if j < n {
            assert(left.contains(left[j]));
        } else {
            assert(right.contains(right[j - n - 1]));
        }
    }
    assert(separated_at(s, n));
    let i = choose|i: int| separated_at(s, i);
    assert(i == n);
    assert(s.take(i) =~= left);
    assert(s.skip(i + 1) =~= right);
}

/// A text without an underscore, or with more than one, is no identifier.
pub proof fn law_identifier_has_one_underscore(s: Seq<char>)
    requires
        s.filter(|c: char| c == '_').len() != 1,
    ensures
        parsed_id(s) is None,
{
    if exists|i: int| separated_at(s, i) {
        let i = choose|i: int| separated_at(s, i);
        lemma_one_underscore(s, i);
    }
}

proof fn lemma_one_underscore(s: Seq<char>, i: int)
    requires
        separated_at(s, i),
    ensures
        s.filter(|c: char| c == '_').len() == 1,
    decreases s.len(),
{
    let under = |c: char| c == '_';
    reveal(Seq::filter);
    let shorter = s.drop_last();
    if i == s.len() - 1 {
        lemma_no_underscore(shorter);
    } else {
        assert(separated_at(shorter, i));
        lemma_one_underscore(shorter, i);
        assert(s[s.len() - 1] != '_');
    }
}

proof fn lemma_no_underscore(s: Seq<char>)
    requires
        forall|j: int| 0 <= j < s.len() ==> s[j] != '_',
    ensures
        s.filter(|c: char| c == '_').len() == 0,
    decreases s.len(),
{
    reveal(Seq::filter);
    if s.len() > 0 {
        lemma_no_underscore(s.drop_last());
        assert(s[s.len() - 1] != '_');
    }
}

} // verus!
