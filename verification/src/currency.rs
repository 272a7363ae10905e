//! Exact fixed-point money: a non-negative amount held as an integer count of
//! ten-thousandths of a unit, so that decimal input and output lose nothing.

use vstd::prelude::*;

verus! {

/// Number of smallest units in one whole unit (four decimal digits).
pub const UNIT_IN_DECIMALS: u64 = 10000;

#[derive(Debug, PartialEq, Eq, Structural, Copy, Clone)]
pub enum CurrencyError {
    Overflow,
    DecimalError,
}

#[derive(Debug, PartialEq, Eq, Structural, Copy, Clone)]
pub enum CurrencyFormatError {
    InvalidRepresentation,
}

/// A monetary amount with four decimal digits of precision, stored as a
/// single integer count of smallest units. Equality and ordering are exact
/// integer comparisons; arithmetic is checked, never wrapping.
#[derive(Debug, PartialEq, Eq, Structural, Copy, Clone)]
pub struct Currency {
    amount: u64,
}

impl View for Currency {
    type V = nat;

    closed spec fn view(&self) -> nat {
        self.amount as nat
    }
}

impl Default for Currency {
    fn default() -> (r: Self)
        ensures
            r@ == 0,
    {
        Self { amount: 0 }
    }
}

impl Currency {
    /// Builds an amount from whole units plus a count of smallest units.
    pub fn new(unit: u64, decimal: u64) -> (r: Result<Self, CurrencyError>)
        ensures
            match r {
                Ok(c) => decimal < UNIT_IN_DECIMALS && unit * UNIT_IN_DECIMALS + decimal
                    <= u64::MAX && c@ == unit * UNIT_IN_DECIMALS + decimal,
                Err(CurrencyError::Overflow) => unit * UNIT_IN_DECIMALS > u64::MAX || (decimal
                    < UNIT_IN_DECIMALS && unit * UNIT_IN_DECIMALS + decimal > u64::MAX),
                Err(CurrencyError::DecimalError) => unit * UNIT_IN_DECIMALS <= u64::MAX && decimal
                    >= UNIT_IN_DECIMALS,
            },
    {
        let value = match unit.checked_mul(UNIT_IN_DECIMALS) {
            Some(v) => v,
            None => {
                return Err(CurrencyError::Overflow);
            },
        };
        if decimal < UNIT_IN_DECIMALS {
            match value.checked_add(decimal) {
                Some(amount) => Ok(Self { amount }),
                None => Err(CurrencyError::Overflow),
            }
        } else {
            Err(CurrencyError::DecimalError)
        }
    }

    /// The amount as a count of smallest units.
    pub fn amount(&self) -> (r: u64)
        ensures
            r as nat == self@,
    {
        self.amount
    }

    /// The sum, or `None` when it does not fit the representation.
    pub fn checked_add(self, other: Self) -> (r: Option<Currency>)
        ensures
            r is Some <==> self@ + other@ <= u64::MAX,
            r matches Some(c) ==> c@ == self@ + other@,
    {
        match self.amount.checked_add(other.amount) {
            Some(amount) => Some(Currency { amount }),
            None => None,
        }
    }

    /// The difference, or `None` when the result would go below zero.
    pub fn checked_sub(self, other: Self) -> (r: Option<Currency>)
        ensures
            r is Some <==> other@ <= self@,
            r matches Some(c) ==> c@ == self@ - other@,
    {
        match self.amount.checked_sub(other.amount) {
            Some(amount) => Some(Currency { amount }),
            None => None,
        }
    }
}

/// The characters '0' through '9'.
pub open spec fn is_digit(c: char) -> bool {
    48 <= c as u32 <= 57
}

/// The numeric value of a digit character.
pub open spec fn digit_val(c: char) -> nat {
    (c as u32 - 48) as nat
}

/// The digit character for a value below ten.
pub open spec fn digit_char(d: nat) -> char {
    if d == 0 {
        '0'
    } else if d == 1 {
        '1'
    } else if d == 2 {
        '2'
    } else if d == 3 {
        '3'
    } else if d == 4 {
        '4'
    } else if d == 5 {
        '5'
    } else if d == 6 {
        '6'
    } else if d == 7 {
        '7'
    } else if d == 8 {
        '8'
    } else {
        '9'
    }
}

pub open spec fn all_digits(s: Seq<char>) -> bool {
    forall|i: int| 0 <= i < s.len() ==> is_digit(#[trigger] s[i])
}

/// The number a digit string denotes, most significant digit first.
pub open spec fn digits_val(s: Seq<char>) -> nat
    decreases s.len(),
{
    if s.len() == 0 {
        0
    } else {
        digits_val(s.drop_last()) * 10 + digit_val(s.last())
    }
}

/// The canonical decimal digits of a number: no leading zeros, and a single
/// zero for zero itself.
pub open spec fn digits_of(n: nat) -> Seq<char>
    decreases n,
{
    if n < 10 {
        seq![digit_char(n)]
    } else {
        digits_of(n / 10).push(digit_char(n % 10))
    }
}

pub open spec fn zeros(k: nat) -> Seq<char> {
    Seq::new(k, |i: int| '0')
}

pub open spec fn pow10(k: nat) -> nat
    decreases k,
{
    if k == 0 {
        1
    } else {
        10 * pow10((k - 1) as nat)
    }
}

/// The fractional part of an amount rendered as exactly four digits, with
/// leading zeros.
pub open spec fn frac4(f: nat) -> Seq<char> {
    if digits_of(f).len() <= 4 {
        zeros((4 - digits_of(f).len()) as nat) + digits_of(f)
    } else {
        digits_of(f)
    }
}

/// The canonical decimal rendering of an amount of smallest units: the whole
/// units, a separator, and exactly four fractional digits.
pub open spec fn format_spec(amount: nat) -> Seq<char> {
    digits_of(amount / 10000) + seq!['.'] + frac4(amount % 10000)
}

/// The index of the first decimal separator, or -1 when there is none.
pub open spec fn first_dot(s: Seq<char>) -> int
    decreases s.len(),
{
    if s.len() == 0 {
        -1
    } else if s[0] == '.' {
        0
    } else {
        let r = first_dot(s.drop_first());
        if r == -1 {
            -1
        } else {
            r + 1
        }
    }
}

/// The value in smallest units that a fractional digit string denotes:
/// digits beyond the four-digit scale are truncated, missing digits count as
/// trailing zeros.
pub open spec fn frac_val(dec: Seq<char>) -> nat {
    if dec.len() >= 4 {
        digits_val(dec.take(4))
    } else {
        digits_val(dec) * pow10((4 - dec.len()) as nat)
    }
}

/// What a decimal string denotes, in smallest units: `Some` exactly for a
/// non-empty digit string, optionally followed by one separator and further
/// digits, whose value fits the representation.
pub open spec fn parse_spec(s: Seq<char>) -> Option<nat> {
    let i = first_dot(s);
    if i == -1 {
        if s.len() > 0 && all_digits(s) && digits_val(s) * 10000 <= u64::MAX {
            Some((digits_val(s) * 10000) as nat)
        } else {
            None
        }
    } else {
        let units = s.take(i);
        let dec = s.skip(i + 1);
        if units.len() > 0 && all_digits(units) && all_digits(dec) && digits_val(units) * 10000
            + frac_val(dec) <= u64::MAX {
            Some((digits_val(units) * 10000 + frac_val(dec)) as nat)
        } else {
            None
        }
    }
}

/// The canonical digits of a number denote that number, consist of digit
/// characters only, and are never empty.
pub proof fn lemma_digits_of(n: nat)
    ensures
        all_digits(digits_of(n)),
        digits_val(digits_of(n)) == n,
        digits_of(n).len() >= 1,
    decreases n,
{
    if n < 10 {
        assert(is_digit(digit_char(n)));
        assert(digits_of(n) =~= seq![digit_char(n)]);
        assert(digits_of(n).drop_last() =~= Seq::<char>::empty());
        assert(digits_val(Seq::<char>::empty()) == 0);
        assert(digits_of(n).last() == digit_char(n));
        assert(digit_val(digit_char(n)) == n);
        assert(digits_val(digits_of(n)) == n);
    } else {
        lemma_digits_of(n / 10);
        let pre = digits_of(n / 10);
        let whole = pre.push(digit_char(n % 10));
        assert(whole.drop_last() =~= pre);
        assert(whole.last() == digit_char(n % 10));
        assert(digit_val(digit_char(n % 10)) == n % 10);
        assert(digits_val(whole) == (n / 10) * 10 + n % 10);
        assert((n / 10) * 10 + n % 10 == n) by {
            vstd::arithmetic::div_mod::lemma_fundamental_div_mod(n as int, 10);
        }
        assert(digits_of(n) == whole);
        assert(forall|i: int| 0 <= i < whole.len() ==> is_digit(#[trigger] whole[i]));
        assert(digits_val(digits_of(n)) == n);
    }
}

/// Dropping characters from the end never increases the denoted value.
pub proof fn lemma_digits_val_take(t: Seq<char>, k: int)
    requires
        0 <= k <= t.len(),
    ensures
        digits_val(t.take(k)) <= digits_val(t),
    decreases t.len(),
{
    if k == t.len() {
        assert(t.take(k) =~= t);
    } else {
        lemma_digits_val_take(t.drop_last(), k);
        assert(t.drop_last().take(k) =~= t.take(k));
    }
}

/// A digit string denotes a value below ten to the power of its length.
pub proof fn lemma_digits_val_bound(t: Seq<char>)
    requires
        all_digits(t),
    ensures
        digits_val(t) < pow10(t.len() as nat),
    decreases t.len(),
{
    if t.len() == 0 {
    } else {
        lemma_digits_val_bound(t.drop_last());
        assert(is_digit(t.last()));
        assert(digit_val(t.last()) <= 9);
    }
}

/// Leading zeros do not change the value a digit string denotes.
pub proof fn lemma_leading_zeros(k: nat, t: Seq<char>)
    ensures
        digits_val(zeros(k) + t) == digits_val(t),
    decreases t.len(),
{
    if t.len() == 0 {
        assert(zeros(k) + t =~= zeros(k));
        lemma_zeros_val(k);
    } else {
        lemma_leading_zeros(k, t.drop_last());
        assert((zeros(k) + t).drop_last() =~= zeros(k) + t.drop_last());
        assert((zeros(k) + t).last() == t.last());
    }
}

/// A string of zeros denotes zero.
pub proof fn lemma_zeros_val(k: nat)
    ensures
        digits_val(zeros(k)) == 0,
    decreases k,
{
    if k == 0 {
        assert(zeros(0) =~= Seq::<char>::empty());
    } else {
        lemma_zeros_val((k - 1) as nat);
        assert(zeros(k).drop_last() =~= zeros((k - 1) as nat));
        assert(zeros(k).last() == '0');
        assert(digit_val('0') == 0);
    }
}

/// When position `i` holds the first separator, `first_dot` finds it.
pub proof fn lemma_first_dot_found(s: Seq<char>, i: int)
    requires
        0 <= i < s.len(),
        s[i] == '.',
        forall|j: int| 0 <= j < i ==> s[j] != '.',
    ensures
        first_dot(s) == i,
    decreases i,
{
    if i == 0 {
    } else {
        assert(s[0] != '.');
        lemma_first_dot_found(s.drop_first(), i - 1);
    }
}

/// A string without a separator is reported as such.
pub proof fn lemma_first_dot_none(s: Seq<char>)
    requires
        forall|j: int| 0 <= j < s.len() ==> s[j] != '.',
    ensures
        first_dot(s) == -1,
    decreases s.len(),
{
    if s.len() == 0 {
    } else {
        lemma_first_dot_none(s.drop_first());
    }
}

/// The one-character string for a digit value.
fn digit_to_str(d: u64) -> (r: &'static str)
    requires
        d < 10,
    ensures
        r@ == seq![digit_char(d as nat)],
{
    proof {
        reveal_strlit("0");
        reveal_strlit("1");
        reveal_strlit("2");
        reveal_strlit("3");
        reveal_strlit("4");
        reveal_strlit("5");
        reveal_strlit("6");
        reveal_strlit("7");
        reveal_strlit("8");
        reveal_strlit("9");
    }
    let r = if d == 0 {
        "0"
    } else if d == 1 {
        "1"
    } else if d == 2 {
        "2"
    } else if d == 3 {
        "3"
    } else if d == 4 {
        "4"
    } else if d == 5 {
        "5"
    } else if d == 6 {
        "6"
    } else if d == 7 {
        "7"
    } else if d == 8 {
        "8"
    } else {
        "9"
    };
    proof {
        assert(r@ =~= seq![digit_char(d as nat)]);
    }
    r
}

/// The canonical decimal digits of a whole number.
fn format_units(u: u64) -> (r: String)
    ensures
        r@ == digits_of(u as nat),
    decreases u,
{
    if u < 10 {
        String::from_str(digit_to_str(u))
    } else {
        let mut s = format_units(u / 10);
        s.append(digit_to_str(u % 10));
        proof {
            assert(s@ =~= digits_of((u / 10) as nat).push(digit_char((u % 10) as nat)));
        }
        s
    }
}

impl Currency {
    /// The canonical decimal rendering: the whole units, a separator, and
    /// exactly four fractional digits.
    pub fn format(&self) -> (r: String)
        ensures
            r@ == format_spec(self@),
    {
        let units = self.amount / UNIT_IN_DECIMALS;
        let frac = self.amount % UNIT_IN_DECIMALS;
        let mut s = format_units(units);
        s.append(".");
        proof {
            reveal_strlit(".");
            assert(s@ =~= digits_of((self.amount / 10000) as nat) + seq!['.']);
        }
        let ghost mid = s@;
        if frac < 10 {
            s.append("000");
        } else if frac < 100 {
            s.append("00");
        } else if frac < 1000 {
            s.append("0");
        }
        proof {
            reveal_strlit("000");
            reveal_strlit("00");
            reveal_strlit("0");
            let f = (self.amount % 10000) as nat;
            lemma_digits_of(f);
            lemma_digits_of(f / 10);
            lemma_digits_of(f / 10 / 10);
            lemma_digits_of(f / 10 / 10 / 10);
            assert(s@ =~= mid + zeros((4 - digits_of(f).len()) as nat));
        }
        let fs = format_units(frac);
        s.append(fs.as_str());
        proof {
            let f = (self.amount % 10000) as nat;
            assert(s@ =~= mid + (zeros((4 - digits_of(f).len()) as nat) + digits_of(f)));
            assert(s@ =~= format_spec(self@));
        }
        s
    }
}

/// A number below ten to the power `k` has at most `k` canonical digits.
pub proof fn lemma_digits_of_len_le(n: nat, k: nat)
    requires
        k >= 1,
        n < pow10(k),
    ensures
        digits_of(n).len() <= k,
    decreases n,
{
    if n < 10 {
    } else {
        vstd::arithmetic::div_mod::lemma_fundamental_div_mod(n as int, 10);
        assert(pow10(k) == 10 * pow10((k - 1) as nat));
        lemma_digits_of_len_le(n / 10, (k - 1) as nat);
    }
}

/// A digit character is never the decimal separator.
proof fn lemma_digits_not_dot(t: Seq<char>)
    requires
        all_digits(t),
    ensures
        forall|j: int| 0 <= j < t.len() ==> t[j] != '.',
{
    assert forall|j: int| 0 <= j < t.len() implies t[j] != '.' by {
        assert(is_digit(t[j]));
    }
}

/// Rendering an amount and reading the result back yields the amount again:
/// the canonical format is an exact inverse of parsing, for every value the
/// representation can hold.
pub proof fn lemma_parse_format_round_trip(amount: nat)
    requires
        amount <= u64::MAX,
    ensures
        parse_spec(format_spec(amount)) == Some(amount),
{
    let u = amount / 10000;
    let f = amount % 10000;
    let du = digits_of(u);
    let fr = frac4(f);
    let s = format_spec(amount);
    lemma_digits_of(u);
    lemma_digits_of(f);
    lemma_pow10_small();
    lemma_digits_of_len_le(f, 4);
    let df = digits_of(f);
    let z = zeros((4 - df.len()) as nat);
    assert(fr == z + df);
    assert(fr.len() == 4);
    assert(all_digits(fr)) by {
        assert(forall|j: int| 0 <= j < z.len() ==> z[j] == '0');
        assert(is_digit('0'));
        assert(forall|j: int| 0 <= j < fr.len() && j < z.len() ==> #[trigger] fr[j] == z[j]);
        assert(forall|j: int|
            z.len() <= j < fr.len() ==> #[trigger] fr[j] == df[j - z.len()]);
    }
    assert(s[du.len() as int] == '.');
    lemma_digits_not_dot(du);
    lemma_digits_not_dot(fr);
    assert(forall|j: int| 0 <= j < du.len() ==> #[trigger] s[j] == du[j]);
    lemma_first_dot_found(s, du.len() as int);
    let units = s.take(du.len() as int);
    let dec = s.skip(du.len() as int + 1);
    assert(units =~= du);
    assert(dec =~= fr);
    assert(dec.take(4) =~= fr);
    lemma_leading_zeros((4 - df.len()) as nat, df);
    assert(frac_val(dec) == f);
    vstd::arithmetic::div_mod::lemma_fundamental_div_mod(amount as int, 10000);
    assert(digits_val(units) * 10000 + frac_val(dec) == amount);
}

/// Parsing keeps only the first four fractional digits: further digits are
/// truncated and never change the value.
pub proof fn lemma_parse_truncates(units: Seq<char>, dec: Seq<char>)
    requires
        all_digits(units),
        all_digits(dec),
        dec.len() >= 4,
    ensures
        parse_spec(units + seq!['.'] + dec) == parse_spec(units + seq!['.'] + dec.take(4)),
{
    let s1 = units + seq!['.'] + dec;
    let s2 = units + seq!['.'] + dec.take(4);
    lemma_digits_not_dot(units);
    assert(forall|k: int| 0 <= k < 4 ==> dec.take(4)[k] == dec[k]);
    assert(all_digits(dec.take(4)));
    assert(s1[units.len() as int] == '.');
    assert(s2[units.len() as int] == '.');
    assert(forall|j: int| 0 <= j < units.len() ==> #[trigger] s1[j] == units[j]);
    assert(forall|j: int| 0 <= j < units.len() ==> #[trigger] s2[j] == units[j]);
    lemma_first_dot_found(s1, units.len() as int);
    lemma_first_dot_found(s2, units.len() as int);
    assert(s1.take(units.len() as int) =~= units);
    assert(s2.take(units.len() as int) =~= units);
    let d1 = s1.skip(units.len() as int + 1);
    let d2 = s2.skip(units.len() as int + 1);
    assert(d1 =~= dec);
    assert(d2 =~= dec.take(4));
    assert(d1.take(4) =~= dec.take(4));
    assert(d2.take(4) =~= dec.take(4));
    assert(frac_val(d1) == frac_val(d2));
}

/// The first few powers of ten, written out for the parser's case analysis.
proof fn lemma_pow10_small()
    ensures
        pow10(0) == 1,
        pow10(1) == 10,
        pow10(2) == 100,
        pow10(3) == 1000,
        pow10(4) == 10000,
{
    assert(pow10(0) == 1);
    assert(pow10(1) == 10);
    assert(pow10(2) == 100);
    assert(pow10(3) == 1000);
    assert(pow10(4) == 10000);
}

/// Reads the digit string in `s[from..to]` as a number; `None` when a
/// character is not a digit or the value does not fit the representation.
/// An empty range reads as zero.
fn parse_digits(s: &str, from: usize, to: usize) -> (r: Option<u64>)
    requires
        from <= to <= s@.len(),
    ensures
        r is Some <==> all_digits(s@.subrange(from as int, to as int)) && digits_val(
            s@.subrange(from as int, to as int),
        ) <= u64::MAX,
        r matches Some(v) ==> v == digits_val(s@.subrange(from as int, to as int)),
{
    let ghost whole = s@.subrange(from as int, to as int);
    let mut acc: u64 = 0;
    let mut i: usize = from;
    while i < to
        invariant
            from <= i <= to <= s@.len(),
            whole == s@.subrange(from as int, to as int),
            all_digits(s@.subrange(from as int, i as int)),
            acc == digits_val(s@.subrange(from as int, i as int)),
        decreases to - i,
    {
        let ghost pre = s@.subrange(from as int, i as int);
        let c = s.get_char(i);
        let u = c as u32;
        if u < 48 || u > 57 {
            proof {
                assert(whole[i - from] == c);
                assert(!all_digits(whole));
            }
            return None;
        }
        let d = (u - 48) as u64;
        proof {
            assert(s@.subrange(from as int, i + 1).drop_last() =~= pre);
            assert(s@.subrange(from as int, i + 1).last() == c);
            assert(digits_val(s@.subrange(from as int, i + 1)) == acc * 10 + d);
            assert(all_digits(s@.subrange(from as int, i + 1)));
        }
        let acc10 = match acc.checked_mul(10) {
            Some(x) => x,
            None => {
                proof {
                    assert(whole.take(i + 1 - from) =~= s@.subrange(from as int, i + 1));
                    lemma_digits_val_take(whole, i + 1 - from);
                }
                return None;
            },
        };
        acc = match acc10.checked_add(d) {
            Some(x) => x,
            None => {
                proof {
                    assert(whole.take(i + 1 - from) =~= s@.subrange(from as int, i + 1));
                    lemma_digits_val_take(whole, i + 1 - from);
                }
                return None;
            },
        };
        i = i + 1;
    }
    proof {
        assert(whole =~= s@.subrange(from as int, i as int));
    }
    Some(acc)
}

impl Currency {
    /// Reads an amount from a decimal string of the form
    /// `<digits>[.<digits>]`. Fractional digits beyond the four-digit scale
    /// are truncated, not rounded; missing fractional digits count as
    /// trailing zeros. Any non-digit character, a second separator, an empty
    /// unit part, or a value that does not fit the representation is
    /// rejected.
    pub fn from_str(s: &str) -> (r: Result<Currency, CurrencyFormatError>)
        ensures
            r matches Ok(c) ==> parse_spec(s@) == Some(c@),
            r is Err <==> parse_spec(s@) is None,
    {
        let n = s.unicode_len();
        let mut i: usize = 0;
        let mut dot_idx: usize = 0;
        let mut found = false;
        while i < n
            invariant
                i <= n,
                n == s@.len(),
                found ==> dot_idx < i && s@[dot_idx as int] == '.' && (forall|j: int|
                    0 <= j < dot_idx ==> s@[j] != '.'),
                !found ==> forall|j: int| 0 <= j < i ==> s@[j] != '.',
            decreases n - i,
        {
            if !found {
                let c = s.get_char(i);
                if c == '.' {
                    found = true;
                    dot_idx = i;
                }
            }
            i = i + 1;
        }
        if !found {
            proof {
                lemma_first_dot_none(s@);
            }
            if n == 0 {
                return Err(CurrencyFormatError::InvalidRepresentation);
            }
            let units = match parse_digits(s, 0, n) {
                Some(v) => v,
                None => {
                    proof {
                        assert(s@.subrange(0, n as int) =~= s@);
                    }
                    return Err(CurrencyFormatError::InvalidRepresentation);
                },
            };
            proof {
                assert(s@.subrange(0, n as int) =~= s@);
            }
            match units.checked_mul(UNIT_IN_DECIMALS) {
                Some(amount) => Ok(Currency { amount }),
                None => Err(CurrencyFormatError::InvalidRepresentation),
            }
        } else {
            proof {
                lemma_first_dot_found(s@, dot_idx as int);
            }
            let ghost units_seq = s@.take(dot_idx as int);
            let ghost dec_seq = s@.skip(dot_idx + 1);
            if dot_idx == 0 {
                return Err(CurrencyFormatError::InvalidRepresentation);
            }
            let units = match parse_digits(s, 0, dot_idx) {
                Some(v) => v,
                None => {
                    proof {
                        assert(s@.subrange(0, dot_idx as int) =~= units_seq);
                        if all_digits(units_seq) {
                            lemma_digits_val_take(units_seq, units_seq.len() as int);
                        }
                    }
                    return Err(CurrencyFormatError::InvalidRepresentation);
                },
            };
            proof {
                assert(s@.subrange(0, dot_idx as int) =~= units_seq);
            }
            // every fractional character must be a digit, even past the scale
            let mut j = dot_idx + 1;
            while j < n
                invariant
                    dot_idx + 1 <= j <= n,
                    n == s@.len(),
                    first_dot(s@) == dot_idx,
                    dec_seq == s@.skip(dot_idx + 1),
                    forall|k: int| 0 <= k < j - dot_idx - 1 ==> is_digit(#[trigger] dec_seq[k]),
                decreases n - j,
            {
                let c = s.get_char(j);
                let u = c as u32;
                if u < 48 || u > 57 {
                    proof {
                        assert(dec_seq[j - dot_idx - 1] == c);
                        assert(!all_digits(dec_seq));
                    }
                    return Err(CurrencyFormatError::InvalidRepresentation);
                }
                proof {
                    assert(dec_seq[j - dot_idx - 1] == c);
                }
                j = j + 1;
            }
            proof {
                assert(all_digits(dec_seq));
            }
            let dec_len = n - (dot_idx + 1);
            let m = if dec_len > 4 {
                4
            } else {
                dec_len
            };
            let ghost kept = s@.subrange(dot_idx + 1, dot_idx + 1 + m as int);
            let frac_digits = match parse_digits(s, dot_idx + 1, dot_idx + 1 + m) {
                Some(v) => v,
                None => {
                    proof {
                        assert(forall|k: int| 0 <= k < kept.len() ==> kept[k] == dec_seq[k]);
                        lemma_digits_val_bound(kept);
                        lemma_pow10_small();
                        assert(pow10(kept.len() as nat) <= 10000);
                        assert(false);
                    }
                    return Err(CurrencyFormatError::InvalidRepresentation);
                },
            };
            proof {
                assert(forall|k: int| 0 <= k < kept.len() ==> kept[k] == dec_seq[k]);
                lemma_digits_val_bound(kept);
            }
            let multiplier: u64 = if m == 0 {
                10000
            } else if m == 1 {
                1000
            } else if m == 2 {
                100
            } else if m == 3 {
                10
            } else {
                1
            };
            proof {
                lemma_pow10_small();
                if dec_len >= 4 {
                    assert(kept =~= dec_seq.take(4));
                } else {
                    assert(kept =~= dec_seq);
                }
                assert(frac_digits < pow10(m as nat));
                if m == 0 {
                    assert(frac_digits == 0);
                } else if m == 1 {
                    assert(frac_digits * multiplier == frac_digits * 1000);
                } else if m == 2 {
                    assert(frac_digits * multiplier == frac_digits * 100);
                } else if m == 3 {
                    assert(frac_digits * multiplier == frac_digits * 10);
                } else {
                    assert(frac_digits * multiplier == frac_digits * 1);
                }
                assert(frac_digits * multiplier <= 9999);
                assert(frac_digits * multiplier == frac_val(dec_seq));
            }
            let d = frac_digits * multiplier;
            let base = match units.checked_mul(UNIT_IN_DECIMALS) {
                Some(x) => x,
                None => {
                    return Err(CurrencyFormatError::InvalidRepresentation);
                },
            };
            match base.checked_add(d) {
                Some(amount) => Ok(Currency { amount }),
                None => Err(CurrencyFormatError::InvalidRepresentation),
            }
        }
    }
}

} // verus!
