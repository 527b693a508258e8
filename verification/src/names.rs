//! Names of tensors and parameters.

use vstd::prelude::*;

verus! {

/// A decimal digit.
pub open spec fn digit(d: usize) -> Seq<char> {
    match d {
        0 => "0"@,
        1 => "1"@,
        2 => "2"@,
        3 => "3"@,
        4 => "4"@,
        5 => "5"@,
        6 => "6"@,
        7 => "7"@,
        8 => "8"@,
        _ => "9"@,
    }
}

/// A number in decimal digits, without leading zeros.
pub open spec fn decimal(n: nat) -> Seq<char>
    decreases n,
{
    if n < 10 {
        digit(n as usize)
    } else {
        decimal(n / 10) + digit((n % 10) as usize)
    }
}

/// A decimal digit.
fn digit_str(d: usize) -> (r: &'static str)
    requires
        d < 10,
    ensures
        r@ == digit(d),
{
    match d {
        0 => "0",
        1 => "1",
        2 => "2",
        3 => "3",
        4 => "4",
        5 => "5",
        6 => "6",
        7 => "7",
        8 => "8",
        _ => "9",
    }
}

/// A number in decimal digits, without leading zeros.
pub fn decimal_string(n: usize) -> (r: String)
    ensures
        r@ == decimal(n as nat),
    decreases n,
{
    if n < 10 {
        String::from_str(digit_str(n))
    } else {
        let mut s = decimal_string(n / 10);
        s.append(digit_str(n % 10));
        s
    }
}

/// The name of a tensor of layer `i`.
pub open spec fn block_name(i: nat, suffix: Seq<char>) -> Seq<char> {
    "blk."@ + decimal(i) + suffix
}

/// The name of a tensor of layer `i`.
pub fn block_string(i: usize, suffix: &str) -> (r: String)
    ensures
        r@ == block_name(i as nat, suffix@),
{
    let mut s = String::from_str("blk.");
    s.append(decimal_string(i).as_str());
    s.append(suffix);
    s
}

/// A digit is one character, and no point; different digits are different characters.
proof fn lemma_digits(a: usize, b: usize)
    requires
        a < 10,
        b < 10,
    ensures
        digit(a).len() == 1,
        digit(a)[0] != '.',
        digit(a)[0] == digit(b)[0] ==> a == b,
{
    reveal_strlit("0");
    reveal_strlit("1");
    reveal_strlit("2");
    reveal_strlit("3");
    reveal_strlit("4");
    reveal_strlit("5");
    reveal_strlit("6");
    reveal_strlit("7");
    reveal_strlit("8");
    reveal_strlit("9");
}

/// A number in digits has at least one character, and more than one from ten on; none is a point.
proof fn lemma_decimal(n: nat)
    ensures
        decimal(n).len() > 0,
        n >= 10 ==> decimal(n).len() > 1,
        forall|k: int| 0 <= k < decimal(n).len() ==> #[trigger] decimal(n)[k] != '.',
    decreases n,
{
    if n < 10 {
        lemma_digits(n as usize, 0);
    } else {
        lemma_decimal(n / 10);
        lemma_digits((n % 10) as usize, 0);
    }
}

/// Different numbers are written differently.
pub proof fn law_decimal_tells_numbers_apart(m: nat, n: nat)
    ensures
        decimal(m) == decimal(n) ==> m == n,
    decreases m,
{
    if decimal(m) == decimal(n) {
        lemma_decimal(m);
        lemma_decimal(n);
        if m < 10 {
            lemma_digits(m as usize, 0);
            lemma_digits(m as usize, n as usize);
        } else {
            let a = (m % 10) as usize;
            let b = (n % 10) as usize;
            lemma_digits(a, b);
            lemma_digits(b, a);
            assert(n >= 10);
            assert(decimal(m).last() == digit(a)[0]);
            assert(decimal(n).last() == digit(b)[0]);
            assert(decimal(m).drop_last() =~= decimal(m / 10));
            assert(decimal(n).drop_last() =~= decimal(n / 10));
            law_decimal_tells_numbers_apart(m / 10, n / 10);
        }
    }
}

/// The name of a layer's tensor tells the layer and the tensor, as long as what follows the number
/// begins with a point.
pub proof fn law_block_names_are_distinct(i: nat, s: Seq<char>, j: nat, t: Seq<char>)
    requires
        s.len() > 0 && s[0] == '.',
        t.len() > 0 && t[0] == '.',
    ensures
        block_name(i, s) == block_name(j, t) ==> i == j && s == t,
{
    reveal_strlit("blk.");
    if block_name(i, s) == block_name(j, t) {
        let name = block_name(i, s);
        let m = decimal(i).len();
        let n = decimal(j).len();
        lemma_decimal(i);
        lemma_decimal(j);
        assert(name[4 + m as int] == s[0]);
        assert(name[4 + n as int] == t[0]);
        assert(m < n ==> name[4 + m as int] == decimal(j)[m as int]);
        assert(n < m ==> name[4 + n as int] == decimal(i)[n as int]);
        assert(decimal(i) =~= name.subrange(4, 4 + m as int));
        assert(decimal(j) =~= name.subrange(4, 4 + n as int));
        law_decimal_tells_numbers_apart(i, j);
        assert(s =~= name.skip(4 + m as int));
        assert(t =~= name.skip(4 + n as int));
    }
}

} // verus!
