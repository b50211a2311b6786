//! Reading bytes of text: runs of bytes of one class, and the numbers that
//! runs of digits spell.

use vstd::prelude::*;
use vstd::string::StringSliceAdditionalSpecFns;

verus! {

pub const TAB: u8 = 0x09;

pub const LINE_FEED: u8 = 0x0a;

pub const CARRIAGE_RETURN: u8 = 0x0d;

pub const SPACE: u8 = 0x20;

pub const STAR: u8 = 0x2a;

pub const HYPHEN: u8 = 0x2d;

pub const DOT: u8 = 0x2e;

pub const COLON: u8 = 0x3a;

pub const EQUALS: u8 = 0x3d;

pub const UNDERSCORE: u8 = 0x5f;

/// The classes of bytes that the text formats are made of.
#[derive(Debug, Clone, Copy, PartialEq, Eq, Structural)]
pub enum ByteClass {
    /// `0` to `9`.
    Digit,
    /// `0` to `9`, `a` to `f`, `A` to `F`.
    HexDigit,
    /// An ASCII letter or digit.
    Alphanumeric,
    /// A space or a tab.
    Space,
    /// Anything but `=`, a space or a tab.
    Key,
    /// Anything but a space or a tab.
    Word,
    /// An ASCII letter or digit, `-` or `_`.
    Host,
    /// Anything but a line feed.
    Line,
}

/// The bases that numbers are written in.
#[derive(Debug, Clone, Copy, PartialEq, Eq, Structural)]
pub enum Radix {
    Decimal,
    Hex,
}

impl Radix {
    /// The base as a number.
    pub open spec fn base(self) -> nat {
        match self {
            Radix::Decimal => 10,
            Radix::Hex => 16,
        }
    }

    pub fn value(self) -> (base: u64)
        ensures
            base == self.base(),
    {
        match self {
            Radix::Decimal => 10,
            Radix::Hex => 16,
        }
    }
}

pub open spec fn is_digit(b: u8) -> bool {
    0x30 <= b <= 0x39
}

pub open spec fn is_letter(b: u8) -> bool {
    0x41 <= b <= 0x5a || 0x61 <= b <= 0x7a
}

pub open spec fn is_hex_digit(b: u8) -> bool {
    is_digit(b) || 0x41 <= b <= 0x46 || 0x61 <= b <= 0x66
}

pub open spec fn is_space(b: u8) -> bool {
    b == SPACE || b == TAB
}

impl ByteClass {
    /// Whether `b` belongs to the class.
    pub open spec fn holds(self, b: u8) -> bool {
        match self {
            ByteClass::Digit => is_digit(b),
            ByteClass::HexDigit => is_hex_digit(b),
            ByteClass::Alphanumeric => is_digit(b) || is_letter(b),
            ByteClass::Space => is_space(b),
            ByteClass::Key => !is_space(b) && b != EQUALS,
            ByteClass::Word => !is_space(b),
            ByteClass::Host => is_digit(b) || is_letter(b) || b == HYPHEN || b == UNDERSCORE,
            ByteClass::Line => b != LINE_FEED,
        }
    }

    pub fn matches(self, b: u8) -> (held: bool)
        ensures
            held == self.holds(b),
    {
        let digit = 0x30 <= b && b <= 0x39;
        let letter = (0x41 <= b && b <= 0x5a) || (0x61 <= b && b <= 0x7a);
        let space = b == SPACE || b == TAB;
        match self {
            ByteClass::Digit => digit,
            ByteClass::HexDigit => digit || (0x41 <= b && b <= 0x46) || (0x61 <= b && b <= 0x66),
            ByteClass::Alphanumeric => digit || letter,
            ByteClass::Space => space,
            ByteClass::Key => !space && b != EQUALS,
            ByteClass::Word => !space,
            ByteClass::Host => digit || letter || b == HYPHEN || b == UNDERSCORE,
            ByteClass::Line => b != LINE_FEED,
        }
    }
}

/// End of the longest run of bytes of `class` that starts at `pos`.
pub open spec fn run_end(s: Seq<u8>, pos: int, class: ByteClass) -> int
    decreases s.len() - pos,
{
    if 0 <= pos < s.len() && class.holds(s[pos]) {
        run_end(s, pos + 1, class)
    } else {
        pos
    }
}

/// A run ends inside the text, holds only bytes of its class, and stops at
/// the end of the text or before a byte that is not of the class.
pub proof fn lemma_run_end(s: Seq<u8>, pos: int, class: ByteClass)
    requires
        0 <= pos <= s.len(),
    ensures
        pos <= run_end(s, pos, class) <= s.len(),
        forall|i: int| pos <= i < run_end(s, pos, class) ==> class.holds(#[trigger] s[i]),
        run_end(s, pos, class) < s.len() ==> !class.holds(s[run_end(s, pos, class)]),
    decreases s.len() - pos,
{
    if pos < s.len() && class.holds(s[pos]) {
        lemma_run_end(s, pos + 1, class);
    }
}

/// A run that starts inside another run of the same class ends where that
/// one ends.
pub proof fn lemma_run_end_from_inside(s: Seq<u8>, pos: int, mid: int, class: ByteClass)
    requires
        0 <= pos <= mid <= s.len(),
        forall|i: int| pos <= i < mid ==> class.holds(#[trigger] s[i]),
    ensures
        run_end(s, pos, class) == run_end(s, mid, class),
    decreases mid - pos,
{
    if pos < mid {
        lemma_run_end_from_inside(s, pos + 1, mid, class);
    }
}

/// Scans the longest run of bytes of `class` from `pos`, and returns its
/// end.
pub fn scan(input: &[u8], pos: usize, class: ByteClass) -> (end: usize)
    ensures
        end == run_end(input@, pos as int, class),
        pos <= end,
        pos <= input@.len() ==> end <= input@.len(),
{
    if pos >= input.len() {
        return pos;
    }
    let mut end = pos;
    while end < input.len() && class.matches(input[end])
        invariant
            pos <= end <= input@.len(),
            forall|i: int| pos <= i < end ==> class.holds(#[trigger] input@[i]),
        decreases input@.len() - end,
    {
        end += 1;
    }
    proof {
        lemma_run_end_from_inside(input@, pos as int, end as int, class);
        lemma_run_end(input@, pos as int, class);
    }
    end
}

/// Whether the byte at `pos` is `b`.
pub open spec fn byte_is(s: Seq<u8>, pos: int, b: u8) -> bool {
    0 <= pos < s.len() && s[pos] == b
}

pub fn at(input: &[u8], pos: usize, b: u8) -> (found: bool)
    ensures
        found == byte_is(input@, pos as int, b),
        found ==> pos < usize::MAX,
{
    pos < input.len() && input[pos] == b
}

/// The value of a hexadecimal digit; of a decimal digit too.
pub open spec fn digit_value(b: u8) -> nat {
    if is_digit(b) {
        (b - 0x30) as nat
    } else if 0x41 <= b <= 0x46 {
        (b - 0x41 + 10) as nat
    } else {
        (b - 0x61 + 10) as nat
    }
}

/// The number that the digits of `s` spell in base `base`.
pub open spec fn number(s: Seq<u8>, base: nat) -> nat
    decreases s.len(),
{
    if s.len() == 0 {
        0
    } else {
        number(s.drop_last(), base) * base + digit_value(s.last())
    }
}

/// The number that a text spells is at least what any of its beginnings
/// spells.
pub proof fn lemma_number_grows(s: Seq<u8>, base: nat, shorter: int)
    requires
        0 <= shorter <= s.len(),
        base >= 1,
    ensures
        number(s.take(shorter), base) <= number(s, base),
    decreases s.len() - shorter,
{
    if shorter < s.len() {
        lemma_number_grows(s.drop_last(), base, shorter);
        assert(s.drop_last().take(shorter) =~= s.take(shorter));
        assert(number(s.drop_last(), base) * base >= number(s.drop_last(), base))
            by (nonlinear_arith)
            requires
                base >= 1,
        ;
    } else {
        assert(s.take(shorter) =~= s);
    }
}

fn value_of(b: u8) -> (v: u64)
    requires
        is_hex_digit(b),
    ensures
        v == digit_value(b),
        v < 16,
        is_digit(b) ==> v < 10,
{
    if b <= 0x39 {
        (b - 0x30) as u64
    } else if b <= 0x46 {
        (b - 0x41 + 10) as u64
    } else {
        (b - 0x61 + 10) as u64
    }
}

/// The number that the digits of `input` from `from` to `to` spell in base
/// `base`, unless it is above `max`.
fn read_number(input: &[u8], from: usize, to: usize, base: u64, max: u64) -> (value: Option<u64>)
    requires
        from <= to <= input@.len(),
        base == 10 || base == 16,
        base == 10 ==> forall|i: int| from <= i < to ==> is_digit(#[trigger] input@[i]),
        base == 16 ==> forall|i: int| from <= i < to ==> is_hex_digit(#[trigger] input@[i]),
    ensures
        number(input@.subrange(from as int, to as int), base as nat) <= max ==> value == Some(
            number(input@.subrange(from as int, to as int), base as nat) as u64,
        ),
        number(input@.subrange(from as int, to as int), base as nat) > max ==> value.is_none(),
{
    let ghost digits = input@.subrange(from as int, to as int);
    let mut value: u64 = 0;
    let mut i = from;
    while i < to
        invariant
            from <= i <= to <= input@.len(),
            base == 10 || base == 16,
            digits == input@.subrange(from as int, to as int),
            base == 10 ==> forall|k: int| from <= k < to ==> is_digit(#[trigger] input@[k]),
            base == 16 ==> forall|k: int| from <= k < to ==> is_hex_digit(#[trigger] input@[k]),
            value == number(digits.take(i - from), base as nat),
            value <= max,
        decreases to - i,
    {
        let digit = value_of(input[i]);
        proof {
            assert(digits.take(i + 1 - from).drop_last() =~= digits.take(i - from));
            lemma_number_grows(digits, base as nat, i + 1 - from);
        }
        if digit > max || value > (max - digit) / base {
            proof {
                if digit <= max {
                    vstd::arithmetic::div_mod::lemma_fundamental_div_mod(
                        max - digit,
                        base as int,
                    );
                    assert(value * base + digit > max) by (nonlinear_arith)
                        requires
                            value >= (max - digit) / (base as int) + 1,
                            max - digit == base * ((max - digit) / (base as int)) + (max - digit) % (
                            base as int),
                            (max - digit) % (base as int) < base,
                            base >= 1,
                    ;
                } else {
                    assert(value * base >= 0) by (nonlinear_arith)
                        requires
                            value >= 0,
                            base >= 1,
                    ;
                }
            }
            return None;
        }
        proof {
            vstd::arithmetic::div_mod::lemma_fundamental_div_mod(max - digit, base as int);
            assert(value * base + digit <= max) by (nonlinear_arith)
                requires
                    0 <= value <= (max - digit) / (base as int),
                    max - digit == base * ((max - digit) / (base as int)) + (max - digit) % (
                    base as int),
                    (max - digit) % (base as int) >= 0,
                    base >= 1,
            ;
        }
        value = value * base + digit;
        i += 1;
    }
    proof {
        assert(digits.take(to - from) =~= digits);
    }
    Some(value)
}

/// The number that the longest run of digits of base `base` from `pos`
/// spells, and the end of the run: nothing where no digit stands at `pos`,
/// or the number is above `max`.
pub open spec fn spec_number(s: Seq<u8>, pos: int, base: nat, max: nat) -> Option<(nat, int)> {
    let class = if base == 10 {
        ByteClass::Digit
    } else {
        ByteClass::HexDigit
    };
    let end = run_end(s, pos, class);
    let value = number(s.subrange(pos, end), base);
    if pos < end && value <= max {
        Some((value, end))
    } else {
        None
    }
}

/// Reads a number at `pos`: see [`spec_number`].
pub fn read_number_at(input: &[u8], pos: usize, radix: Radix, max: u64) -> (found: Option<
    (u64, usize),
>)
    ensures
        found matches Some((value, end)) ==> spec_number(
            input@,
            pos as int,
            radix.base(),
            max as nat,
        ) == Some((value as nat, end as int)) && pos < end <= input@.len() && value <= max,
        found.is_none() ==> spec_number(input@, pos as int, radix.base(), max as nat).is_none(),
{
    let base = radix.value();
    let class = if base == 10 {
        ByteClass::Digit
    } else {
        ByteClass::HexDigit
    };
    let end = scan(input, pos, class);
    if end == pos {
        return None;
    }
    proof {
        lemma_run_end(input@, pos as int, class);
    }
    match read_number(input, pos, end, base, max) {
        Some(value) => Some((value, end)),
        None => None,
    }
}

/// End of the run of bytes of `class` at `pos`, where there is at least
/// one such byte.
pub open spec fn spec_token(s: Seq<u8>, pos: int, class: ByteClass) -> Option<int> {
    if run_end(s, pos, class) > pos {
        Some(run_end(s, pos, class))
    } else {
        None
    }
}

/// A run of bytes of `class` behind at least one space or tab: where it
/// starts and where it ends.
pub open spec fn spec_spaced(s: Seq<u8>, pos: int, class: ByteClass) -> Option<(int, int)> {
    match spec_token(s, pos, ByteClass::Space) {
        Some(start) => match spec_token(s, start, class) {
            Some(end) => Some((start, end)),
            None => None,
        },
        None => None,
    }
}

/// Reads a run of at least one byte of `class`: see [`spec_token`].
pub fn token(input: &[u8], pos: usize, class: ByteClass) -> (found: Option<usize>)
    ensures
        found matches Some(end) ==> spec_token(input@, pos as int, class) == Some(end as int) && pos
            < end <= input@.len(),
        found.is_none() ==> spec_token(input@, pos as int, class).is_none(),
{
    let end = scan(input, pos, class);
    if end > pos {
        Some(end)
    } else {
        None
    }
}

/// Reads a run of bytes of `class` behind spaces: see [`spec_spaced`].
pub fn spaced(input: &[u8], pos: usize, class: ByteClass) -> (found: Option<(usize, usize)>)
    ensures
        found matches Some((start, end)) ==> spec_spaced(input@, pos as int, class) == Some(
            (start as int, end as int),
        ) && pos < start < end <= input@.len(),
        found.is_none() ==> spec_spaced(input@, pos as int, class).is_none(),
{
    match token(input, pos, ByteClass::Space) {
        Some(start) => match token(input, start, class) {
            Some(end) => Some((start, end)),
            None => None,
        },
        None => None,
    }
}

/// Where the line that starts at `pos` ends, its line feed and a carriage
/// return before the line feed left out, and where the next line starts.
pub open spec fn spec_line(s: Seq<u8>, pos: int) -> (int, int) {
    let feed = run_end(s, pos, ByteClass::Line);
    let end = if pos < feed < s.len() && s[feed - 1] == CARRIAGE_RETURN {
        feed - 1
    } else {
        feed
    };
    let next = if feed < s.len() {
        feed + 1
    } else {
        feed
    };
    (end, next)
}

/// Finds the end of the line that starts at `pos`, and the start of the
/// next: see [`spec_line`].
pub fn next_line(input: &[u8], pos: usize) -> (bounds: (usize, usize))
    ensures
        spec_line(input@, pos as int) == (bounds.0 as int, bounds.1 as int),
        pos <= bounds.0 <= bounds.1,
        pos < input@.len() ==> pos < bounds.1 <= input@.len(),
{
    if pos >= input.len() {
        return (pos, pos);
    }
    let feed = scan(input, pos, ByteClass::Line);
    let end = if feed > pos && feed < input.len() && input[feed - 1] == CARRIAGE_RETURN {
        feed - 1
    } else {
        feed
    };
    let next = if feed < input.len() {
        feed + 1
    } else {
        feed
    };
    (end, next)
}

/// The digit that spells `d` in bases up to 16, in lower case.
pub open spec fn digit_of(d: nat) -> u8 {
    if d < 10 {
        (0x30 + d) as u8
    } else {
        (0x61 + d - 10) as u8
    }
}

/// The digits that spell `n` in base 16, or else in base 10, without
/// leading zeros.
pub open spec fn spelled(n: nat, base: nat) -> Seq<u8>
    decreases n,
{
    if base == 16 {
        if n < 16 {
            seq![digit_of(n)]
        } else {
            spelled(n / 16, 16).push(digit_of(n % 16))
        }
    } else {
        if n < 10 {
            seq![digit_of(n)]
        } else {
            spelled(n / 10, 10).push(digit_of(n % 10))
        }
    }
}

/// What was spelled reads back as the number it spells, and is made of
/// digits only.
pub proof fn lemma_spelled(n: nat, base: nat)
    requires
        base == 10 || base == 16,
    ensures
        number(spelled(n, base), base) == n,
        spelled(n, base).len() >= 1,
        forall|i: int|
            0 <= i < spelled(n, base).len() ==> is_hex_digit(#[trigger] spelled(n, base)[i]) && (base
                == 10 ==> is_digit(spelled(n, base)[i])),
    decreases n,
{
    if n < base {
        assert(number(spelled(n, base), base) == number(spelled(n, base).drop_last(), base) * base
            + digit_value(spelled(n, base).last()));
        assert(0 * base == 0) by (nonlinear_arith);
    } else {
        lemma_spelled(n / base, base);
        let front = spelled(n / base, base);
        assert(spelled(n, base).drop_last() =~= front);
        vstd::arithmetic::div_mod::lemma_fundamental_div_mod(n as int, base as int);
        assert((n / base) * base == base * (n / base)) by (nonlinear_arith);
    }
}

/// The class of the digits of base 16, or else of base 10.
pub open spec fn digits_of(base: nat) -> ByteClass {
    if base == 16 {
        ByteClass::HexDigit
    } else {
        ByteClass::Digit
    }
}

/// Where a number stands spelled in a text, with no further digit behind
/// it, the number is read back, unless it is above `max`.
pub proof fn lemma_reads_spelled(s: Seq<u8>, pos: int, n: nat, base: nat, max: nat)
    requires
        base == 10 || base == 16,
        0 <= pos,
        pos + spelled(n, base).len() <= s.len(),
        s.subrange(pos, pos + spelled(n, base).len()) == spelled(n, base),
        pos + spelled(n, base).len() == s.len() || !digits_of(base).holds(
            s[pos + spelled(n, base).len()],
        ),
    ensures
        run_end(s, pos, digits_of(base)) == pos + spelled(n, base).len(),
        spec_number(s, pos, base, max) == if n <= max {
            Some((n, pos + spelled(n, base).len()))
        } else {
            None
        },
{
    let digits = spelled(n, base);
    let end = pos + digits.len();
    lemma_spelled(n, base);
    assert forall|i: int| pos <= i < end implies digits_of(base).holds(#[trigger] s[i]) by {
        assert(s[i] == s.subrange(pos, end)[i - pos]);
    }
    lemma_run_end_from_inside(s, pos, end, digits_of(base));
}

/// Appends to `out` the digits that spell `n`.
pub fn spell(out: &mut Vec<u8>, n: u64, radix: Radix)
    ensures
        final(out)@ == old(out)@ + spelled(n as nat, radix.base()),
    decreases n,
{
    let base = radix.value();
    if n >= base {
        spell(out, n / base, radix);
    }
    let d = n % base;
    let digit: u8 = if d < 10 {
        0x30 + (d as u8)
    } else {
        0x61 + ((d - 10) as u8)
    };
    out.push(digit);
}

/// Appends the bytes of `more` to `out`.
pub fn append(out: &mut Vec<u8>, more: &[u8])
    ensures
        final(out)@ == old(out)@ + more@,
{
    let mut i: usize = 0;
    while i < more.len()
        invariant
            i <= more@.len(),
            out@ == old(out)@ + more@.take(i as int),
        decreases more@.len() - i,
    {
        out.push(more[i]);
        i += 1;
    }
}

/// Appends the bytes of the text `more` to `out`.
pub fn append_str(out: &mut Vec<u8>, more: &str)
    ensures
        final(out)@ == old(out)@ + more.spec_bytes(),
{
    append(out, more.as_bytes());
}

/// Whether two texts are the same.
pub fn same_bytes(a: &[u8], b: &[u8]) -> (same: bool)
    ensures
        same == (a@ == b@),
{
    if a.len() != b.len() {
        return false;
    }
    let mut i: usize = 0;
    while i < a.len()
        invariant
            i <= a@.len(),
            a@.len() == b@.len(),
            forall|k: int| 0 <= k < i ==> a@[k] == b@[k],
        decreases a@.len() - i,
    {
        if a[i] != b[i] {
            return false;
        }
        i += 1;
    }
    assert(a@ =~= b@);
    true
}

} // verus!
