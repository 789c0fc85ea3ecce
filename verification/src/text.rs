//! Small helpers that build the strings of a command line.
use crate::fx::spelled;
use convert_case::Case;
use convert_case::Casing;
use vstd::prelude::*;
use vstd::string::StringExecFns;

verus! {

/// The kebab-case form of a name, as `convert_case` computes it.
pub uninterp spec fn kebab_of(name: Seq<char>) -> Seq<char>;

/// `Casing::to_case` with `Case::Kebab`: the name split into words at the
/// crate's default boundaries, in lower case, joined by hyphens.
#[verifier::external_body]
pub(crate) fn kebab(name: &str) -> (out: String)
    ensures
        out@ == kebab_of(name@),
{
    name.to_case(Case::Kebab)
}

/// The decimal digit `d`.
pub open spec fn digit_of(d: int) -> Seq<char> {
    if d == 0 {
        "0"@
    } else if d == 1 {
        "1"@
    } else if d == 2 {
        "2"@
    } else if d == 3 {
        "3"@
    } else if d == 4 {
        "4"@
    } else if d == 5 {
        "5"@
    } else if d == 6 {
        "6"@
    } else if d == 7 {
        "7"@
    } else if d == 8 {
        "8"@
    } else {
        "9"@
    }
}

/// The number `n` in decimal digits, without leading zeros.
pub open spec fn decimal_of(n: nat) -> Seq<char>
    decreases n,
{
    if n < 10 {
        digit_of(n as int)
    } else {
        decimal_of(n / 10) + digit_of((n % 10) as int)
    }
}

/// Whether `c` is a decimal digit.
pub open spec fn is_digit(c: char) -> bool {
    c == '0' || c == '1' || c == '2' || c == '3' || c == '4' || c == '5' || c == '6' || c == '7'
        || c == '8' || c == '9'
}

/// A digit is written as one character, which is a digit, and different
/// digits are written differently.
pub proof fn lemma_digit(d: int)
    requires
        0 <= d < 10,
    ensures
        digit_of(d).len() == 1,
        is_digit(digit_of(d)[0]),
        forall|e: int| 0 <= e < 10 && digit_of(e) == digit_of(d) ==> e == d,
{
    reveal_strlit("0");
    reveal_strlit("1");
    reveal_strlit("2");
    reveal_strlit("3");
    reveal_strlit("4");
    reveal_strlit("5");
    reveal_strlit("6");
    reveal_strlit("7");
    reveal_strlit("8");
    reveal_strlit("9");
    assert forall|e: int| 0 <= e < 10 && digit_of(e) == digit_of(d) implies e == d by {
        assert(digit_of(e)[0] == digit_of(d)[0]);
    }
}

/// A number is written with at least one character, with more than one if it
/// is ten or more, and with digits only.
pub proof fn lemma_decimal_shape(n: nat)
    ensures
        decimal_of(n).len() >= 1,
        n >= 10 ==> decimal_of(n).len() >= 2,
        forall|i: int| 0 <= i < decimal_of(n).len() ==> is_digit(#[trigger] decimal_of(n)[i]),
    decreases n,
{
    if n < 10 {
        lemma_digit(n as int);
    } else {
        lemma_decimal_shape(n / 10);
        lemma_digit((n % 10) as int);
    }
}

/// Different numbers are written differently.
pub proof fn lemma_decimal_injective(a: nat, b: nat)
    requires
        decimal_of(a) == decimal_of(b),
    ensures
        a == b,
    decreases a,
{
    lemma_decimal_shape(a);
    lemma_decimal_shape(b);
    if a < 10 && b < 10 {
        lemma_digit(a as int);
        assert(digit_of(b as int) == digit_of(a as int));
    } else if a < 10 {
        lemma_digit(a as int);
    } else if b < 10 {
        lemma_digit(b as int);
    } else {
        let front_a = decimal_of(a / 10);
        let front_b = decimal_of(b / 10);
        let last_a = digit_of((a % 10) as int);
        let last_b = digit_of((b % 10) as int);
        lemma_digit((a % 10) as int);
        lemma_digit((b % 10) as int);
        assert(front_a =~= decimal_of(a).drop_last()) by {
            assert(decimal_of(a) == front_a + last_a);
        }
        assert(front_b =~= decimal_of(b).drop_last()) by {
            assert(decimal_of(b) == front_b + last_b);
        }
        assert(last_a =~= last_b) by {
            assert(decimal_of(a) == front_a + last_a);
            assert(decimal_of(b) == front_b + last_b);
            assert(last_a[0] == decimal_of(a).last());
            assert(last_b[0] == decimal_of(b).last());
        }
        lemma_decimal_injective(a / 10, b / 10);
        assert(digit_of((b % 10) as int) == digit_of((a % 10) as int));
        assert(a % 10 == b % 10);
    }
}

/// The decimal digit `d` as a string.
fn digit(d: usize) -> (out: &'static str)
    requires
        d < 10,
    ensures
        out@ == digit_of(d as int),
{
    if d == 0 {
        "0"
    } else if d == 1 {
        "1"
    } else if d == 2 {
        "2"
    } else if d == 3 {
        "3"
    } else if d == 4 {
        "4"
    } else if d == 5 {
        "5"
    } else if d == 6 {
        "6"
    } else if d == 7 {
        "7"
    } else if d == 8 {
        "8"
    } else {
        "9"
    }
}

/// Writes `n` in decimal digits.
pub fn decimal(n: usize) -> (out: String)
    ensures
        out@ == decimal_of(n as nat),
    decreases n,
{
    if n < 10 {
        digit(n).to_owned()
    } else {
        decimal(n / 10).concat(digit(n % 10))
    }
}

/// Appends a copy of `word` to the command line `args`.
pub fn push_word(args: &mut Vec<String>, word: &str)
    ensures
        spelled(final(args)@) == spelled(old(args)@).push(word@),
{
    proof {
        assert forall|s: String| s@ == word@ implies spelled(old(args)@.push(s)) =~= spelled(
            old(args)@,
        ).push(word@) by {}
    }
    args.push(word.to_owned());
}

/// Appends copies of the words `more` to the command line `args`.
pub fn push_words(args: &mut Vec<String>, more: &Vec<String>)
    ensures
        spelled(final(args)@) == spelled(old(args)@) + spelled(more@),
{
    let mut i: usize = 0;
    while i < more.len()
        invariant
            i <= more.len(),
            spelled(args@) == spelled(old(args)@) + spelled(more@).take(i as int),
        decreases more.len() - i,
    {
        let ghost before = args@;
        args.push(more[i].clone());
        proof {
            assert(spelled(args@) =~= spelled(before).push(more@[i as int]@));
            assert(spelled(more@).take(i + 1) =~= spelled(more@).take(i as int).push(
                more@[i as int]@,
            ));
            assert(spelled(args@) =~= spelled(old(args)@) + spelled(more@).take(i + 1));
        }
        i += 1;
    }
    assert(spelled(more@).take(more.len() as int) =~= spelled(more@));
}

} // verus!
