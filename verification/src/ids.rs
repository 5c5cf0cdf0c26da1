//! Token ids that the registry makes up itself: the decimal numerals of a
//! running serial number. The serial number is kept as its digits, so it has
//! no upper bound.

use vstd::prelude::*;
use vstd::string::StringExecFns;

verus! {

/// The character of one decimal digit.
pub open spec fn digit(d: nat) -> char {
    if d == 0 {
        '0'
    } else if d == 1 {
        '1'
    } else if d == 2 {
        '2'
    } else if d == 3 {
        '3'
    } else if d == 4 {
        '4'
    } else if d == 5 {
        '5'
    } else if d == 6 {
        '6'
    } else if d == 7 {
        '7'
    } else if d == 8 {
        '8'
    } else {
        '9'
    }
}

/// The decimal numeral of `n`, without leading zeros.
pub open spec fn decimal(n: nat) -> Seq<char>
    decreases n,
{
    if n < 10 {
        seq![digit(n)]
    } else {
        decimal(n / 10).push(digit(n % 10))
    }
}

/// The ids with the serial numbers `start`, `start + 1`, ... , `count` of them.
pub open spec fn generated(start: nat, count: nat) -> Seq<Seq<char>> {
    Seq::new(count, |i: int| decimal((start + i) as nat))
}

/// The digit that a character stands for; 0 for a character that is no digit.
pub open spec fn digit_value(c: char) -> nat {
    if c == '1' {
        1
    } else if c == '2' {
        2
    } else if c == '3' {
        3
    } else if c == '4' {
        4
    } else if c == '5' {
        5
    } else if c == '6' {
        6
    } else if c == '7' {
        7
    } else if c == '8' {
        8
    } else if c == '9' {
        9
    } else {
        0
    }
}

/// The number that a decimal numeral stands for.
pub open spec fn numeral_value(s: Seq<char>) -> nat
    decreases s.len(),
{
    if s.len() == 0 {
        0
    } else {
        numeral_value(s.drop_last()) * 10 + digit_value(s.last())
    }
}

/// Reading the numeral of a number gives the number back.
pub proof fn lemma_numeral_value(n: nat)
    ensures
        numeral_value(decimal(n)) == n,
    decreases n,
{
    if n < 10 {
        assert(decimal(n).drop_last() =~= Seq::empty());
        assert(decimal(n).last() == digit(n));
        assert(numeral_value(decimal(n).drop_last()) == 0);
    } else {
        lemma_numeral_value(n / 10);
        assert(decimal(n).drop_last() =~= decimal(n / 10));
        assert(decimal(n).last() == digit(n % 10));
    }
}

/// The decimal digits of `n`, most significant first, without leading zeros.
pub open spec fn decimal_digits(n: nat) -> Seq<u8>
    decreases n,
{
    if n < 10 {
        seq![n as u8]
    } else {
        decimal_digits(n / 10).push((n % 10) as u8)
    }
}

/// The number that a sequence of decimal digits stands for.
pub open spec fn digits_value(s: Seq<u8>) -> nat
    decreases s.len(),
{
    if s.len() == 0 {
        0
    } else {
        digits_value(s.drop_last()) * 10 + s.last() as nat
    }
}

/// The digits of the number after the one that `s` stands for: a trailing 9
/// becomes 0 and carries, any other last digit grows by one.
pub open spec fn successor(s: Seq<u8>) -> Seq<u8>
    decreases s.len(),
{
    if s.len() == 0 {
        seq![1u8]
    } else if s.last() == 9 {
        successor(s.drop_last()).push(0u8)
    } else {
        s.drop_last().push((s.last() + 1) as u8)
    }
}

/// The digits of a number are digits, and stand for the number.
pub proof fn lemma_digits_value(n: nat)
    ensures
        digits_value(decimal_digits(n)) == n,
        decimal_digits(n).len() > 0,
        forall|i: int| 0 <= i < decimal_digits(n).len() ==> #[trigger] decimal_digits(n)[i] <= 9,
    decreases n,
{
    if n < 10 {
        assert(decimal_digits(n).drop_last() =~= Seq::empty());
        assert(digits_value(decimal_digits(n).drop_last()) == 0);
    } else {
        lemma_digits_value(n / 10);
        assert(decimal_digits(n).drop_last() =~= decimal_digits(n / 10));
    }
}

/// The numeral of a number is its digits, written as characters.
pub proof fn lemma_decimal_of_digits(n: nat)
    ensures
        decimal(n) == decimal_digits(n).map_values(|d: u8| digit(d as nat)),
    decreases n,
{
    if n < 10 {
        assert(decimal(n) =~= decimal_digits(n).map_values(|d: u8| digit(d as nat)));
    } else {
        lemma_decimal_of_digits(n / 10);
        assert(decimal(n) =~= decimal_digits(n).map_values(|d: u8| digit(d as nat)));
    }
}

/// The successor of the digits of a number is the digits of the next number.
pub proof fn lemma_successor(n: nat)
    ensures
        successor(decimal_digits(n)) == decimal_digits(n + 1),
    decreases n,
{
    let s = decimal_digits(n);
    if n < 10 {
        assert(s.drop_last() =~= Seq::empty());
        if n == 9 {
            assert(successor(s.drop_last()) =~= seq![1u8]);
            assert(decimal_digits(1) =~= seq![1u8]);
            assert(decimal_digits(10) =~= decimal_digits(1).push(0u8));
        } else {
            assert(successor(s) =~= seq![(n + 1) as u8]);
        }
    } else {
        assert(s.drop_last() =~= decimal_digits(n / 10));
        if n % 10 == 9 {
            lemma_successor(n / 10);
            assert((n + 1) / 10 == n / 10 + 1);
            assert((n + 1) % 10 == 0);
        } else {
            assert((n + 1) / 10 == n / 10);
            assert((n + 1) % 10 == n % 10 + 1);
        }
    }
}

/// The text of one decimal digit.
fn digit_text(d: u8) -> (r: &'static str)
    requires
        d < 10,
    ensures
        r@ == seq![digit(d as nat)],
{
    proof {
        reveal_strlit("0");
        reveal_strlit("1");
        reveal_strlit("2");
        reveal_strlit("3");
        reveal_strlit("4");
        reveal_strlit("5");
        reveal_strlit("6");
        reveal_strlit("7");
        reveal_strlit("8");
        reveal_strlit("9");
    }
    let r = if d == 0 {
        "0"
    } else if d == 1 {
        "1"
    } else if d == 2 {
        "2"
    } else if d == 3 {
        "3"
    } else if d == 4 {
        "4"
    } else if d == 5 {
        "5"
    } else if d == 6 {
        "6"
    } else if d == 7 {
        "7"
    } else if d == 8 {
        "8"
    } else {
        "9"
    };
    assert(r@ =~= seq![digit(d as nat)]);
    r
}

/// The digits of the successor of what the first `end` digits stand for.
fn successor_upto(d: &Vec<u8>, end: usize) -> (r: Vec<u8>)
    requires
        end <= d.len(),
        forall|i: int| 0 <= i < d.len() ==> #[trigger] d@[i] <= 9,
    ensures
        r@ == successor(d@.take(end as int)),
    decreases end,
{
    if end == 0 {
        let mut r: Vec<u8> = Vec::new();
        r.push(1);
        assert(d@.take(0) =~= Seq::empty());
        assert(r@ =~= seq![1u8]);
        r
    } else if d[end - 1] == 9 {
        let mut r = successor_upto(d, end - 1);
        r.push(0);
        assert(d@.take(end as int).drop_last() =~= d@.take(end - 1));
        r
    } else {
        let mut r: Vec<u8> = Vec::new();
        let mut i: usize = 0;
        while i < end - 1
            invariant
                i <= end - 1,
                end <= d.len(),
                r@ == d@.take(i as int),
            decreases end - 1 - i,
        {
            r.push(d[i]);
            assert(d@.take(i + 1) =~= d@.take(i as int).push(d@[i as int]));
            i = i + 1;
        }
        r.push(d[end - 1] + 1);
        assert(d@.take(end as int).drop_last() =~= d@.take(end - 1));
        r
    }
}

/// A serial number, kept as its decimal digits: it can always be followed by
/// the next one.
pub struct Serial {
    digits: Vec<u8>,
}

impl View for Serial {
    type V = nat;

    closed spec fn view(&self) -> nat {
        digits_value(self.digits@)
    }
}

impl Serial {
    /// The digits are those of the number, without leading zeros.
    pub closed spec fn wf(&self) -> bool {
        self.digits@ == decimal_digits(self@)
    }

    /// The serial number 0.
    pub fn zero() -> (r: Serial)
        ensures
            r.wf(),
            r@ == 0,
    {
        Serial::from_u64(0)
    }

    /// The serial number `n`.
    pub fn from_u64(n: u64) -> (r: Serial)
        ensures
            r.wf(),
            r@ == n,
        decreases n,
    {
        proof {
            lemma_digits_value(n as nat);
        }
        if n < 10 {
            let mut digits: Vec<u8> = Vec::new();
            digits.push(n as u8);
            assert(digits@ =~= decimal_digits(n as nat));
            Serial { digits }
        } else {
            let mut r = Serial::from_u64(n / 10);
            r.digits.push((n % 10) as u8);
            assert(r.digits@ =~= decimal_digits(n as nat));
            r
        }
    }

    /// The serial number after this one.
    pub fn next(&self) -> (r: Serial)
        requires
            self.wf(),
        ensures
            r.wf(),
            r@ == self@ + 1,
    {
        proof {
            lemma_digits_value(self@);
            lemma_successor(self@);
            lemma_digits_value(self@ + 1);
            assert(self.digits@.take(self.digits@.len() as int) =~= self.digits@);
        }
        Serial { digits: successor_upto(&self.digits, self.digits.len()) }
    }

    /// The decimal numeral of the serial number.
    pub fn text(&self) -> (r: String)
        requires
            self.wf(),
        ensures
            r@ == decimal(self@),
    {
        proof {
            lemma_digits_value(self@);
            lemma_decimal_of_digits(self@);
        }
        let mut r = String::new();
        let mut i: usize = 0;
        while i < self.digits.len()
            invariant
                i <= self.digits.len(),
                forall|j: int| 0 <= j < self.digits.len() ==> #[trigger] self.digits@[j] <= 9,
                r@ == self.digits@.take(i as int).map_values(|d: u8| digit(d as nat)),
            decreases self.digits.len() - i,
        {
            r.append(digit_text(self.digits[i]));
            assert(r@ =~= self.digits@.take(i + 1).map_values(|d: u8| digit(d as nat)));
            i = i + 1;
        }
        assert(self.digits@.take(i as int) =~= self.digits@);
        r
    }
}

impl Clone for Serial {
    /// The same serial number.
    fn clone(&self) -> (r: Serial)
        ensures
            r@ == self@,
            r.wf() == self.wf(),
    {
        let mut digits: Vec<u8> = Vec::new();
        let mut i: usize = 0;
        while i < self.digits.len()
            invariant
                i <= self.digits.len(),
                digits@ == self.digits@.take(i as int),
            decreases self.digits.len() - i,
        {
            digits.push(self.digits[i]);
            assert(self.digits@.take(i + 1) =~= self.digits@.take(i as int).push(
                self.digits@[i as int],
            ));
            i = i + 1;
        }
        assert(self.digits@.take(i as int) =~= self.digits@);
        Serial { digits }
    }
}

/// Makes the ids for `count` serial numbers from `start` on, and gives the
/// serial number that follows them.
pub fn generate(start: &Serial, count: usize) -> (r: (Vec<String>, Serial))
    requires
        start.wf(),
    ensures
        r.0@.map_values(|s: String| s@) == generated(start@, count as nat),
        r.1.wf(),
        r.1@ == start@ + count,
{
    let mut out: Vec<String> = Vec::new();
    let mut current = start.clone();
    let mut i: usize = 0;
    while i < count
        invariant
            i <= count,
            current.wf(),
            current@ == start@ + i,
            out@.len() == i,
            forall|j: int| 0 <= j < i ==> (#[trigger] out@[j])@ == decimal((start@ + j) as nat),
        decreases count - i,
    {
        out.push(current.text());
        current = current.next();
        i = i + 1;
    }
    assert(out@.map_values(|s: String| s@) =~= generated(start@, count as nat));
    (out, current)
}

} // verus!
