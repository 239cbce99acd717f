//! Budget strings, exact amounts in the display unit, and their decimal text.

use vstd::prelude::*;

verus! {

/// The largest number of fractional digits a budget may carry, so that
/// `10^digits` fits the denominator of a [`Quantity`].
pub const MAX_FRACTION_DIGITS: usize = 19;

/// An exact non-negative amount `num / den` in the display unit.
#[derive(Clone, Copy, Debug, PartialEq, Eq, Structural)]
pub struct Quantity {
    pub num: u64,
    pub den: u64,
}

impl Quantity {
    /// A quantity is well formed when its denominator is positive.
    pub open spec fn wf(self) -> bool {
        self.den > 0
    }

    /// `self <= other` as rationals.
    pub open spec fn le(self, other: Quantity) -> bool {
        self.num * other.den <= other.num * self.den
    }

    /// `self == other` as rationals.
    pub open spec fn same_value(self, other: Quantity) -> bool {
        self.num * other.den == other.num * self.den
    }
}

/// The amount of `bytes` bytes in kilobytes: `bytes / 1024`.
pub open spec fn kilobytes_of(bytes: u64) -> Quantity {
    Quantity { num: bytes, den: 1024 }
}

/// The unit a budget is stated in, with the budget's threshold in that unit.
#[derive(Clone, Copy, Debug, PartialEq, Eq, Structural)]
pub enum FileUnit {
    Kb(Quantity),
}

/// Why a budget string was refused.
#[derive(Clone, Copy, Debug, PartialEq, Eq, Structural)]
pub enum ParseError {
    /// The string is not `<number> <unit>` with a known unit symbol.
    UnsupportedUnit,
    /// The number before the unit is not a plain decimal that fits.
    InvalidNumber,
}

impl FileUnit {
    /// The symbol of the unit.
    pub open spec fn symbol(self) -> Seq<char> {
        match self {
            FileUnit::Kb(_) => seq!['k', 'B'],
        }
    }

    /// The threshold parsed with the unit.
    pub open spec fn threshold(self) -> Quantity {
        match self {
            FileUnit::Kb(q) => q,
        }
    }

    /// The amount in this unit of a raw byte count.
    pub open spec fn converted(self, bytes: u64) -> Quantity {
        match self {
            FileUnit::Kb(_) => kilobytes_of(bytes),
        }
    }

    fn bytes_to_kilobytes(&self, size: u64) -> (r: Quantity)
        ensures
            r == kilobytes_of(size),
    {
        Quantity { num: size, den: 1024 }
    }

    /// Converts a raw byte count into this unit.
    pub fn get_converted_unit(&self, file_size: u64) -> (r: Quantity)
        ensures
            r == self.converted(file_size),
            r.wf(),
    {
        match self {
            FileUnit::Kb(_) => self.bytes_to_kilobytes(file_size),
        }
    }

    /// The threshold parsed with the unit, in the unit's own scale.
    pub fn budget_threshold(&self) -> (r: Quantity)
        ensures
            r == self.threshold(),
    {
        match self {
            FileUnit::Kb(q) => *q,
        }
    }

    /// The unit's symbol.
    pub fn to_string(&self) -> (r: String)
        ensures
            r@ == self.symbol(),
    {
        proof {
            reveal_strlit("kB");
        }
        match self {
            FileUnit::Kb(_) => String::from_str("kB"),
        }
    }
}

/// How many times `c` occurs in `s`.
pub open spec fn count_of(s: Seq<char>, c: char) -> nat
    decreases s.len(),
{
    if s.len() == 0 {
        0
    } else {
        count_of(s.drop_last(), c) + if s.last() == c {
            1nat
        } else {
            0nat
        }
    }
}

/// The index of the last `c` in `s`, or -1.
pub open spec fn last_index_of(s: Seq<char>, c: char) -> int
    decreases s.len(),
{
    if s.len() == 0 {
        -1
    } else if s.last() == c {
        s.len() - 1
    } else {
        last_index_of(s.drop_last(), c)
    }
}

pub open spec fn is_digit(c: char) -> bool {
    '0' <= c && c <= '9'
}

pub open spec fn digit_value(c: char) -> int {
    c as int - '0' as int
}

/// A plain decimal: digits with at most one point and at least one digit.
pub open spec fn is_decimal(t: Seq<char>) -> bool {
    &&& forall|i: int| 0 <= i < t.len() ==> is_digit(#[trigger] t[i]) || t[i] == '.'
    &&& count_of(t, '.') <= 1
    &&& t.len() > count_of(t, '.')
}

/// The digits of `t` read as one integer, the point left out.
pub open spec fn mantissa(t: Seq<char>) -> int
    decreases t.len(),
{
    if t.len() == 0 {
        0
    } else if t.last() == '.' {
        mantissa(t.drop_last())
    } else {
        mantissa(t.drop_last()) * 10 + digit_value(t.last())
    }
}

/// The number of digits after the point of `t` (zero when it has none).
pub open spec fn fraction_len(t: Seq<char>) -> nat
    decreases t.len(),
{
    if t.len() == 0 {
        0
    } else if t.last() == '.' {
        0
    } else if count_of(t.drop_last(), '.') > 0 {
        fraction_len(t.drop_last()) + 1
    } else {
        0
    }
}

pub open spec fn pow10(k: nat) -> nat
    decreases k,
{
    if k == 0 {
        1
    } else {
        10 * pow10((k - 1) as nat)
    }
}

/// The amount a decimal text stands for, when it is one that fits.
pub open spec fn decimal_of(t: Seq<char>) -> Option<Quantity> {
    if is_decimal(t) && mantissa(t) <= u64::MAX && fraction_len(t) <= MAX_FRACTION_DIGITS {
        Some(Quantity { num: mantissa(t) as u64, den: pow10(fraction_len(t)) as u64 })
    } else {
        None
    }
}

/// What a budget string `<number> <unit>` parses to.
pub open spec fn budget_of(s: Seq<char>) -> Result<FileUnit, ParseError> {
    if count_of(s, ' ') != 1 {
        Err(ParseError::UnsupportedUnit)
    } else {
        let p = last_index_of(s, ' ');
        if s.subrange(p + 1, s.len() as int) != seq!['k', 'B'] {
            Err(ParseError::UnsupportedUnit)
        } else {
            match decimal_of(s.subrange(0, p)) {
                Some(q) => Ok(FileUnit::Kb(q)),
                None => Err(ParseError::InvalidNumber),
            }
        }
    }
}


pub proof fn lemma_pow10_mono(a: nat, b: nat)
    requires
        a <= b,
    ensures
        1 <= pow10(a) <= pow10(b),
    decreases b,
{
    if a < b {
        lemma_pow10_mono(a, (b - 1) as nat);
    } else if a > 0 {
        lemma_pow10_mono((a - 1) as nat, (a - 1) as nat);
    }
}

/// `10^k` for a number of fractional digits that fits.
fn pow10_exec(k: usize) -> (r: u64)
    requires
        k <= MAX_FRACTION_DIGITS,
    ensures
        r as nat == pow10(k as nat),
{
    proof {
        reveal_with_fuel(pow10, 20);
        assert(pow10(19) == 10000000000000000000nat);
    }
    let mut p: u64 = 1;
    let mut i: usize = 0;
    while i < k
        invariant
            i <= k <= MAX_FRACTION_DIGITS,
            p as nat == pow10(i as nat),
            pow10(19) == 10000000000000000000nat,
        decreases k - i,
    {
        proof {
            lemma_pow10_mono((i + 1) as nat, 19);
            assert(pow10((i + 1) as nat) == 10 * pow10(i as nat));
        }
        p = p * 10;
        i = i + 1;
    }
    p
}

/// Reads the first `end` characters of `s` as a plain decimal.
fn parse_decimal(s: &str, end: usize) -> (r: Option<Quantity>)
    requires
        end <= s@.len(),
    ensures
        r == decimal_of(s@.subrange(0, end as int)),
{
    let mut all_ok = true;
    let mut too_big = false;
    let mut acc: u64 = 0;
    let mut dots: usize = 0;
    let mut frac: usize = 0;
    let mut j: usize = 0;
    while j < end
        invariant
            end <= s@.len(),
            j <= end,
            all_ok == (forall|k: int| 0 <= k < j ==> is_digit(#[trigger] s@[k]) || s@[k] == '.'),
            dots as nat == count_of(s@.subrange(0, j as int), '.'),
            dots <= j,
            frac as nat == fraction_len(s@.subrange(0, j as int)),
            frac <= j,
            all_ok ==> mantissa(s@.subrange(0, j as int)) >= 0,
            all_ok && !too_big ==> acc as int == mantissa(s@.subrange(0, j as int)),
            all_ok && too_big ==> mantissa(s@.subrange(0, j as int)) > u64::MAX,
        decreases end - j,
    {
        let c = s.get_char(j);
        let ghost prev = s@.subrange(0, j as int);
        let ghost next = s@.subrange(0, j + 1);
        proof {
            assert(next.drop_last() == prev);
            assert(next.last() == c);
        }
        if c == '.' {
            dots = dots + 1;
            frac = 0;
        } else {
            if dots > 0 {
                frac = frac + 1;
            }
            if '0' <= c && c <= '9' {
                let d = (c as u32 - '0' as u32) as u64;
                if !too_big {
                    let v: u128 = acc as u128 * 10 + d as u128;
                    if v > u64::MAX as u128 {
                        too_big = true;
                    } else {
                        acc = v as u64;
                    }
                }
            } else {
                all_ok = false;
            }
        }
        j = j + 1;
        proof {
            if !is_digit(c) && c != '.' {
                assert(!(is_digit(s@[j - 1]) || s@[j - 1] == '.'));
            }
        }
    }
    if !all_ok || dots > 1 || end <= dots {
        proof {
            let t = s@.subrange(0, end as int);
            if !all_ok {
                let k = choose|k: int| 0 <= k < end && !(is_digit(#[trigger] s@[k]) || s@[k] == '.');
                assert(t[k] == s@[k]);
            }
        }
        return None;
    }
    proof {
        let t = s@.subrange(0, end as int);
        assert forall|i: int| 0 <= i < t.len() implies is_digit(#[trigger] t[i]) || t[i] == '.' by {
            assert(t[i] == s@[i]);
        }
    }
    if too_big || frac > MAX_FRACTION_DIGITS {
        return None;
    }
    let den = pow10_exec(frac);
    Some(Quantity { num: acc, den })
}

/// Parses a budget string of the form `<number> <unit>`, such as `50 kB`.
/// The only unit is `kB`; the number is a plain decimal such as `12` or `0.5`.
pub fn get_file_unit(size: &str) -> (r: Result<FileUnit, ParseError>)
    ensures
        r == budget_of(size@),
{
    let n = size.unicode_len();
    let mut spaces: usize = 0;
    let mut at: usize = 0;
    let mut i: usize = 0;
    while i < n
        invariant
            n == size@.len(),
            i <= n,
            spaces as nat == count_of(size@.subrange(0, i as int), ' '),
            spaces <= i,
            spaces > 0 ==> at as int == last_index_of(size@.subrange(0, i as int), ' '),
            spaces > 0 ==> at < i,
            spaces == 0 ==> last_index_of(size@.subrange(0, i as int), ' ') == -1,
        decreases n - i,
    {
        let c = size.get_char(i);
        proof {
            assert(size@.subrange(0, i + 1).drop_last() == size@.subrange(0, i as int));
        }
        if c == ' ' {
            spaces = spaces + 1;
            at = i;
        }
        i = i + 1;
    }
    proof {
        assert(size@.subrange(0, n as int) == size@);
    }
    if spaces != 1 {
        return Err(ParseError::UnsupportedUnit);
    }
    let ghost unit = size@.subrange(at + 1, n as int);
    if n - at != 3 {
        proof {
            assert(unit.len() != 2);
        }
        return Err(ParseError::UnsupportedUnit);
    }
    if size.get_char(at + 1) != 'k' || size.get_char(at + 2) != 'B' {
        proof {
            assert(unit[0] == size@[at + 1]);
            assert(unit[1] == size@[at + 2]);
            assert(unit != seq!['k', 'B']);
        }
        return Err(ParseError::UnsupportedUnit);
    }
    proof {
        assert(unit =~= seq!['k', 'B']);
    }
    match parse_decimal(size, at) {
        Some(q) => Ok(FileUnit::Kb(q)),
        None => Err(ParseError::InvalidNumber),
    }
}


/// The decimal digit character of `d`, for `0 <= d <= 9`.
pub open spec fn digit_char(d: int) -> char {
    if d == 0 {
        '0'
    } else if d == 1 {
        '1'
    } else if d == 2 {
        '2'
    } else if d == 3 {
        '3'
    } else if d == 4 {
        '4'
    } else if d == 5 {
        '5'
    } else if d == 6 {
        '6'
    } else if d == 7 {
        '7'
    } else if d == 8 {
        '8'
    } else {
        '9'
    }
}

/// The decimal digits of `n`, without leading zeros.
pub open spec fn nat_text(n: nat) -> Seq<char>
    decreases n,
{
    if n < 10 {
        seq![digit_char(n as int)]
    } else {
        nat_text(n / 10) + seq![digit_char((n % 10) as int)]
    }
}

/// The most fractional digits written for a quantity; every `num / den` whose
/// `den` divides `10^20` (kilobytes of bytes, parsed budgets) is written exactly.
pub const MAX_TEXT_FRACTION: u64 = 20;

/// The first `fuel` fractional digits of `rem / den`, stopping early once the
/// remainder is exhausted, so that no trailing zero is written.
pub open spec fn fraction_text(rem: nat, den: nat, fuel: nat) -> Seq<char>
    decreases fuel,
{
    if rem == 0 || den == 0 || fuel == 0 {
        seq![]
    } else {
        seq![digit_char(((rem * 10) / den) as int)] + fraction_text(
            (rem * 10) % den,
            den,
            (fuel - 1) as nat,
        )
    }
}

impl Quantity {
    /// The shortest decimal text of the amount, such as `10`, `0.5` or `1.0009765625`.
    pub open spec fn text(self) -> Seq<char> {
        let f = fraction_text((self.num % self.den) as nat, self.den as nat, MAX_TEXT_FRACTION as nat);
        nat_text((self.num / self.den) as nat) + if f.len() == 0 {
            Seq::<char>::empty()
        } else {
            seq!['.'] + f
        }
    }

    /// Writes the amount as decimal text.
    pub fn to_text(&self) -> (r: String)
        requires
            self.wf(),
        ensures
            r@ == self.text(),
    {
        let mut out = nat_to_text(self.num / self.den);
        let f = fraction_to_text(self.num % self.den, self.den, MAX_TEXT_FRACTION);
        if f.unicode_len() > 0 {
            proof {
                reveal_strlit(".");
            }
            out.append(".");
            out.append(f.as_str());
        }
        proof {
            if f@.len() == 0 {
                assert(out@ == out@ + Seq::<char>::empty());
            }
        }
        out
    }
}

fn digit_str(d: u64) -> (r: &'static str)
    requires
        d < 10,
    ensures
        r@ == seq![digit_char(d as int)],
{
    proof {
        reveal_strlit("0");
        reveal_strlit("1");
        reveal_strlit("2");
        reveal_strlit("3");
        reveal_strlit("4");
        reveal_strlit("5");
        reveal_strlit("6");
        reveal_strlit("7");
        reveal_strlit("8");
        reveal_strlit("9");
    }
    let r = if d == 0 {
        "0"
    } else if d == 1 {
        "1"
    } else if d == 2 {
        "2"
    } else if d == 3 {
        "3"
    } else if d == 4 {
        "4"
    } else if d == 5 {
        "5"
    } else if d == 6 {
        "6"
    } else if d == 7 {
        "7"
    } else if d == 8 {
        "8"
    } else {
        "9"
    };
    assert(r@ =~= seq![digit_char(d as int)]);
    r
}

/// The decimal digits of `n`.
pub fn nat_to_text(n: u64) -> (r: String)
    ensures
        r@ == nat_text(n as nat),
    decreases n,
{
    if n < 10 {
        String::from_str(digit_str(n))
    } else {
        let mut s = nat_to_text(n / 10);
        s.append(digit_str(n % 10));
        s
    }
}

fn fraction_to_text(rem: u64, den: u64, fuel: u64) -> (r: String)
    requires
        rem < den,
    ensures
        r@ == fraction_text(rem as nat, den as nat, fuel as nat),
    decreases fuel,
{
    if rem == 0 || fuel == 0 {
        proof {
            reveal_strlit("");
        }
        return String::from_str("");
    }
    let t: u128 = rem as u128 * 10;
    let d = (t / den as u128) as u64;
    let next = (t % den as u128) as u64;
    proof {
        assert((t as int) / (den as int) < 10) by (nonlinear_arith)
            requires
                t == rem * 10,
                rem < den,
        ;
        assert((t as int) % (den as int) < den) by (nonlinear_arith)
            requires
                den > 0,
        ;
    }
    let rest = fraction_to_text(next, den, fuel - 1);
    let mut s = String::from_str(digit_str(d));
    s.append(rest.as_str());
    s
}


/// A parsed decimal has a positive denominator.
pub proof fn lemma_decimal_wf(t: Seq<char>)
    ensures
        decimal_of(t) matches Some(q) ==> q.wf(),
{
    if decimal_of(t) is Some {
        lemma_pow10_mono(fraction_len(t), MAX_FRACTION_DIGITS as nat);
        reveal_with_fuel(pow10, 20);
        assert(pow10(19) == 10000000000000000000nat);
    }
}


/// A file of `bytes` bytes is shown as exactly `bytes / 1024` kilobytes.
pub proof fn lemma_kilobytes_exact(u: FileUnit, bytes: u64)
    ensures
        u.converted(bytes).wf(),
        u.converted(bytes).num * 1024 == bytes * u.converted(bytes).den,
{
}

} // verus!
