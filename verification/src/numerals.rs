//! Numerals: reading unsigned integers, writing them, and sorted lists of ids.

use vstd::prelude::*;

verus! {

/// Why a text is no numeral.
#[derive(Clone, Copy, Debug, PartialEq, Eq, Structural)]
pub enum Fault {
    Empty,
    InvalidDigit,
    TooLarge,
}

impl Fault {
    /// The fault in words.
    pub open spec fn words(self) -> Seq<char> {
        match self {
            Fault::Empty => "cannot parse integer from empty string"@,
            Fault::InvalidDigit => "invalid digit found in string"@,
            Fault::TooLarge => "number too large to fit in target type"@,
        }
    }

    /// Describes the fault.
    pub fn message(self) -> (r: &'static str)
        ensures
            r@ == self.words(),
    {
        match self {
            Fault::Empty => "cannot parse integer from empty string",
            Fault::InvalidDigit => "invalid digit found in string",
            Fault::TooLarge => "number too large to fit in target type",
        }
    }
}

/// What the character stands for as a digit, up to fifteen.
pub open spec fn digit(c: char) -> Option<nat> {
    let n = c as u32;
    if 0x30 <= n <= 0x39 {
        Some((n - 0x30) as nat)
    } else if 0x41 <= n <= 0x46 {
        Some((n - 0x41 + 10) as nat)
    } else if 0x61 <= n <= 0x66 {
        Some((n - 0x61 + 10) as nat)
    } else {
        None
    }
}

/// The value of a run of digits read from the left. The first character that is no digit
/// of the radix, or the first digit that takes the value over `max`, ends the reading.
pub open spec fn scan(s: Seq<char>, radix: nat, max: nat) -> Result<nat, Fault>
    decreases s.len(),
{
    if s.len() == 0 {
        Ok(0)
    } else {
        match scan(s.drop_last(), radix, max) {
            Err(e) => Err(e),
            Ok(v) => match digit(s.last()) {
                Some(d) if d < radix => if v * radix + d > max {
                    Err(Fault::TooLarge)
                } else {
                    Ok(v * radix + d)
                },
                _ => Err(Fault::InvalidDigit),
            },
        }
    }
}

/// The unsigned integer that a text stands for: digits, with or without a plus sign
/// before them.
pub open spec fn numeral(s: Seq<char>, radix: nat, max: nat) -> Result<nat, Fault> {
    if s.len() == 0 {
        Err(Fault::Empty)
    } else if s[0] == '+' && s.len() > 1 {
        scan(s.drop_first(), radix, max)
    } else {
        scan(s, radix, max)
    }
}

fn digit_of(c: char) -> (r: Option<u8>)
    ensures
        (match r {
            Some(d) => digit(c) == Some(d as nat) && d < 16,
            None => digit(c) is None,
        }),
{
    let n: u32 = c as u32;
    if 0x30 <= n && n <= 0x39 {
        Some((n - 0x30) as u8)
    } else if 0x41 <= n && n <= 0x46 {
        Some((n - 0x41 + 10) as u8)
    } else if 0x61 <= n && n <= 0x66 {
        Some((n - 0x61 + 10) as u8)
    } else {
        None
    }
}

/// A fault in a prefix is the fault of the whole.
proof fn scan_fault_persists(s: Seq<char>, radix: nat, max: nat, i: int)
    requires
        0 <= i <= s.len(),
        scan(s.take(i), radix, max) is Err,
    ensures
        scan(s, radix, max) == scan(s.take(i), radix, max),
    decreases s.len() - i,
{
    if i < s.len() {
        assert(s.take(i + 1).drop_last() == s.take(i));
        scan_fault_persists(s, radix, max, i + 1);
    } else {
        assert(s.take(i) == s);
    }
}

/// Reads an unsigned integer of the given radix, at most `max`.
pub fn parse_unsigned(s: &[char], radix: u8, max: u64) -> (r: Result<u64, Fault>)
    requires
        2 <= radix <= 16,
    ensures
        (match r {
            Ok(v) => numeral(s@, radix as nat, max as nat) == Ok::<nat, Fault>(v as nat) && v
                <= max,
            Err(e) => numeral(s@, radix as nat, max as nat) == Err::<nat, Fault>(e),
        }),
{
    if s.len() == 0 {
        return Err(Fault::Empty);
    }
    let n: usize = s.len();
    let start: usize = if s[0] == '+' && n > 1 {
        1
    } else {
        0
    };
    let ghost body = if start == 1 {
        s@.drop_first()
    } else {
        s@
    };
    let mut acc: u64 = 0;
    let mut i: usize = start;
    assert(body.take(0) == Seq::<char>::empty());
    while i < n
        invariant
            2 <= radix <= 16,
            n == s@.len(),
            start <= i <= n,
            start <= 1,
            body == s@.skip(start as int),
            acc <= max,
            numeral(s@, radix as nat, max as nat) == scan(body, radix as nat, max as nat),
            scan(body.take(i - start), radix as nat, max as nat) == Ok::<nat, Fault>(acc as nat),
        decreases n - i,
    {
        let ghost here = body.take(i - start + 1);
        assert(here.drop_last() == body.take(i - start));
        assert(here.last() == s@[i as int]);
        let d: u8 = match digit_of(s[i]) {
            Some(d) if d < radix => d,
            _ => {
                proof {
                    scan_fault_persists(body, radix as nat, max as nat, i - start + 1);
                }
                return Err(Fault::InvalidDigit);
            },
        };
        assert((acc as u128) * (radix as u128) <= 0xffff_ffff_ffff_ffff * 16) by (nonlinear_arith)
            requires
                acc <= 0xffff_ffff_ffff_ffff,
                radix <= 16,
        ;
        let wide: u128 = (acc as u128) * (radix as u128);
        let next: u128 = wide + d as u128;
        if next > max as u128 {
            proof {
                scan_fault_persists(body, radix as nat, max as nat, i - start + 1);
            }
            return Err(Fault::TooLarge);
        }
        acc = next as u64;
        i += 1;
    }
    assert(body.take(n - start) == body);
    Ok(acc)
}

/// The numeral's value where it stands for a 32-bit number.
pub open spec fn small_numeral(s: Seq<char>) -> Option<u32> {
    match numeral(s, 10, u32::MAX as nat) {
        Ok(v) => Some(v as u32),
        Err(_) => None,
    }
}

/// Reads a 32-bit number.
pub fn parse_small(s: &[char]) -> (r: Option<u32>)
    ensures
        r == small_numeral(s@),
{
    match parse_unsigned(s, 10, u32::MAX as u64) {
        Ok(v) => Some(v as u32),
        Err(_) => None,
    }
}

// ── Writing ──

/// The character of a decimal digit.
pub open spec fn digit_char(d: nat) -> char {
    (0x30 + d) as char
}

/// `n` in decimal.
pub open spec fn decimal(n: nat) -> Seq<char>
    decreases n,
{
    if n < 10 {
        seq![digit_char(n)]
    } else {
        decimal(n / 10).push(digit_char(n % 10))
    }
}

fn digit_char_of(d: u64) -> (c: char)
    requires
        d < 10,
    ensures
        c == digit_char(d as nat),
{
    (0x30u8 + d as u8) as char
}

/// Writes a number in decimal.
pub fn decimal_of(n: u64) -> (r: String)
    ensures
        r@ == decimal(n as nat),
{
    let mut reversed: Vec<char> = Vec::new();
    let mut rest: u64 = n;
    assert(reversed@.reverse() =~= Seq::<char>::empty());
    assert(decimal(n as nat) =~= decimal(rest as nat) + reversed@.reverse());
    while rest >= 10
        invariant
            decimal(n as nat) == decimal(rest as nat) + reversed@.reverse(),
        decreases rest,
    {
        let ghost before = reversed@;
        let d: u64 = rest % 10;
        reversed.push(digit_char_of(d));
        proof {
            assert(reversed@.reverse() =~= seq![digit_char(d as nat)] + before.reverse());
            assert(decimal((rest / 10) as nat).push(digit_char(d as nat)) + before.reverse()
                =~= decimal((rest / 10) as nat) + reversed@.reverse());
        }
        rest = rest / 10;
    }
    let ghost before = reversed@;
    reversed.push(digit_char_of(rest));
    proof {
        assert(reversed@.reverse() =~= seq![digit_char(rest as nat)] + before.reverse());
        assert(decimal(n as nat) =~= reversed@.reverse());
    }
    let mut out = String::new();
    let mut i: usize = reversed.len();
    assert(reversed@.reverse().take(0) =~= out@);
    while i > 0
        invariant
            i <= reversed@.len(),
            out@ == reversed@.reverse().take(reversed@.len() - i),
        decreases i,
    {
        i -= 1;
        out.push(reversed[i]);
        assert(reversed@.reverse().take(reversed@.len() - i) =~= reversed@.reverse().take(
            reversed@.len() - i - 1,
        ).push(reversed@[i as int]));
    }
    assert(reversed@.reverse().take(reversed@.len() as int) =~= reversed@.reverse());
    out
}

proof fn scan_decimal(n: nat, max: nat)
    requires
        n <= max,
    ensures
        scan(decimal(n), 10, max) == Ok::<nat, Fault>(n),
        decimal(n).len() > 0,
        0x30 <= decimal(n)[0] as u32 <= 0x39,
    decreases n,
{
    if n < 10 {
        let s = seq![digit_char(n)];
        assert(s.drop_last() =~= Seq::<char>::empty());
        assert(scan(s.drop_last(), 10, max) == Ok::<nat, Fault>(0));
        assert(digit(s.last()) == Some(n));
    } else {
        scan_decimal(n / 10, max);
        let s = decimal(n / 10).push(digit_char(n % 10));
        assert(s.drop_last() =~= decimal(n / 10));
        assert(digit(s.last()) == Some(n % 10));
    }
}

/// A number written in decimal reads back as itself.
pub proof fn decimal_reads_back(n: nat, max: nat)
    requires
        n <= max,
    ensures
        numeral(decimal(n), 10, max) == Ok::<nat, Fault>(n),
{
    scan_decimal(n, max);
}

// ── Sorted ids ──

/// Each number is smaller than those after it.
pub open spec fn increasing(s: Seq<u32>) -> bool {
    forall|i: int, j: int| 0 <= i < j < s.len() ==> s[i] < s[j]
}

/// `r` lists the numbers of `s` in increasing order, each of them once.
pub open spec fn sorted_once(s: Seq<u32>, r: Seq<u32>) -> bool {
    &&& increasing(r)
    &&& forall|x: u32| r.contains(x) <==> s.contains(x)
}

/// There is only one such list.
pub proof fn sorted_once_unique(s: Seq<u32>, a: Seq<u32>, b: Seq<u32>)
    requires
        sorted_once(s, a),
        sorted_once(s, b),
    ensures
        a == b,
    decreases a.len(),
{
    assert forall|x: u32| a.contains(x) <==> b.contains(x) by {
        assert(a.contains(x) <==> s.contains(x));
        assert(b.contains(x) <==> s.contains(x));
    }
    increasing_unique(a, b);
}

proof fn increasing_unique(a: Seq<u32>, b: Seq<u32>)
    requires
        increasing(a),
        increasing(b),
        forall|x: u32| a.contains(x) <==> b.contains(x),
    ensures
        a == b,
    decreases a.len(),
{
    if a.len() == 0 {
        if b.len() > 0 {
            assert(b.contains(b[0]));
        }
        assert(a =~= b);
    } else {
        assert(a.contains(a.last()));
        let k = choose|k: int| 0 <= k < b.len() && b[k] == a.last();
        assert(b.contains(b.last()));
        let m = choose|m: int| 0 <= m < a.len() && a[m] == b.last();
        assert(a.last() == b.last());
        let a2 = a.drop_last();
        let b2 = b.drop_last();
        assert forall|x: u32| a2.contains(x) <==> b2.contains(x) by {
            if a2.contains(x) {
                let i = choose|i: int| 0 <= i < a2.len() && a2[i] == x;
                assert(a[i] == x && x < a.last());
                assert(a.contains(x));
                let j = choose|j: int| 0 <= j < b.len() && b[j] == x;
                assert(b2[j] == x);
            }
            if b2.contains(x) {
                let i = choose|i: int| 0 <= i < b2.len() && b2[i] == x;
                assert(b[i] == x && x < b.last());
                assert(b.contains(x));
                let j = choose|j: int| 0 <= j < a.len() && a[j] == x;
                assert(a2[j] == x);
            }
        }
        increasing_unique(a2, b2);
        assert(a =~= a2.push(a.last()));
        assert(b =~= b2.push(b.last()));
    }
}

/// The numbers of `s` in increasing order, each of them once.
pub open spec fn in_order(s: Seq<u32>) -> Seq<u32> {
    choose|r: Seq<u32>| sorted_once(s, r)
}

/// Where a number belongs among increasing ones that do not hold it.
proof fn place_among(r: Seq<u32>, x: u32) -> (k: int)
    requires
        increasing(r),
        !r.contains(x),
    ensures
        0 <= k <= r.len(),
        forall|j: int| 0 <= j < k ==> r[j] < x,
        forall|j: int| k <= j < r.len() ==> r[j] > x,
    decreases r.len(),
{
    if r.len() == 0 || r.last() < x {
        r.len() as int
    } else {
        assert(r.contains(r.last()));
        assert forall|y: u32| r.drop_last().contains(y) implies r.contains(y) by {
            let i = choose|i: int| 0 <= i < r.drop_last().len() && r.drop_last()[i] == y;
            assert(r[i] == y);
        }
        let k = place_among(r.drop_last(), x);
        assert forall|j: int| k <= j < r.len() implies r[j] > x by {
            if j < r.len() - 1 {
                assert(r.drop_last()[j] > x);
            }
        }
        assert forall|j: int| 0 <= j < k implies r[j] < x by {
            assert(r.drop_last()[j] < x);
        }
        k
    }
}

proof fn sorted_exists(s: Seq<u32>) -> (r: Seq<u32>)
    ensures
        sorted_once(s, r),
    decreases s.len(),
{
    if s.len() == 0 {
        assert(sorted_once(s, s));
        s
    } else {
        let seen = s.drop_last();
        let x = s.last();
        let before = sorted_exists(seen);
        assert forall|y: u32| s.contains(y) <==> seen.contains(y) || y == x by {
            if seen.contains(y) {
                let i = choose|i: int| 0 <= i < seen.len() && seen[i] == y;
                assert(s[i] == y);
            }
            if s.contains(y) {
                let i = choose|i: int| 0 <= i < s.len() && s[i] == y;
                if i < seen.len() {
                    assert(seen[i] == y);
                }
            }
            assert(s[s.len() - 1] == x);
        }
        if before.contains(x) {
            before
        } else {
            let k = place_among(before, x);
            let r = before.insert(k, x);
            assert forall|y: u32| r.contains(y) <==> before.contains(y) || y == x by {
                assert(r[k] == x);
                if before.contains(y) {
                    let j = choose|j: int| 0 <= j < before.len() && before[j] == y;
                    if j < k {
                        assert(r[j] == y);
                    } else {
                        assert(r[j + 1] == y);
                    }
                }
                if r.contains(y) {
                    let j = choose|j: int| 0 <= j < r.len() && r[j] == y;
                    if j < k {
                        assert(before[j] == y);
                    } else if j > k {
                        assert(before[j - 1] == y);
                    }
                }
            }
            r
        }
    }
}

/// Numbers in order are increasing and are the same numbers.
pub proof fn in_order_sorts(s: Seq<u32>)
    ensures
        sorted_once(s, in_order(s)),
{
    let r = sorted_exists(s);
    assert(sorted_once(s, r));
}

/// Sorts numbers and drops repetitions.
pub fn sort_dedup(s: &Vec<u32>) -> (r: Vec<u32>)
    ensures
        r@ == in_order(s@),
        sorted_once(s@, r@),
        r@.len() == 0 <==> s@.len() == 0,
{
    let mut out: Vec<u32> = Vec::new();
    let n: usize = s.len();
    assert(s@.take(0) =~= Seq::<u32>::empty());
    for i in 0..n
        invariant
            n == s@.len(),
            sorted_once(s@.take(i as int), out@),
    {
        let x: u32 = s[i];
        let ghost before = out@;
        let ghost seen = s@.take(i as int);
        let ghost now = s@.take(i + 1);
        proof {
            assert(now =~= seen.push(x));
            assert forall|y: u32| now.contains(y) <==> seen.contains(y) || y == x by {
                if seen.contains(y) {
                    let k = choose|k: int| 0 <= k < seen.len() && seen[k] == y;
                    assert(now[k] == y);
                }
                assert(now[i as int] == x);
                if now.contains(y) {
                    let k = choose|k: int| 0 <= k < now.len() && now[k] == y;
                    if k < i {
                        assert(seen[k] == y);
                    }
                }
            }
        }
        let mut k: usize = 0;
        while k < out.len() && out[k] < x
            invariant
                k <= out@.len(),
                out@ == before,
                forall|j: int| 0 <= j < k ==> out@[j] < x,
            decreases out@.len() - k,
        {
            k += 1;
        }
        if k < out.len() && out[k] == x {
            proof {
                assert(before.contains(x));
                assert(out@ == before);
                assert forall|y: u32| out@.contains(y) <==> before.contains(y) || y == x by {}
            }
        } else {
            out.insert(k, x);
            proof {
                assert(out@ == before.insert(k as int, x));
                assert forall|y: u32| out@.contains(y) <==> before.contains(y) || y == x by {
                    assert(out@[k as int] == x);
                    if before.contains(y) {
                        let j = choose|j: int| 0 <= j < before.len() && before[j] == y;
                        if j < k {
                            assert(out@[j] == y);
                        } else {
                            assert(out@[j + 1] == y);
                        }
                    }
                    if out@.contains(y) {
                        let j = choose|j: int| 0 <= j < out@.len() && out@[j] == y;
                        if j < k {
                            assert(before[j] == y);
                        } else if j > k {
                            assert(before[j - 1] == y);
                        }
                    }
                }
                if k < before.len() {
                    assert(before[k as int] > x);
                }
                assert(increasing(out@)) by {
                    assert forall|a: int, b: int| 0 <= a < b < out@.len() implies out@[a]
                        < out@[b] by {
                        if a < k && b > k {
                            assert(out@[b] == before[b - 1]);
                        } else if a == k && b > k {
                            assert(out@[b] == before[b - 1]);
                            assert(before[k as int] <= before[b - 1]);
                        } else if a > k {
                            assert(out@[a] == before[a - 1] && out@[b] == before[b - 1]);
                        }
                    }
                }
            }
        }
        proof {
            assert(increasing(out@));
            assert forall|y: u32| out@.contains(y) <==> now.contains(y) by {
                assert(before.contains(y) <==> seen.contains(y));
            }
        }
    }
    assert(s@.take(n as int) == s@);
    proof {
        if s@.len() > 0 {
            assert(s@.contains(s@[0]));
            assert(out@.contains(s@[0]));
        }
        if out@.len() > 0 {
            assert(out@.contains(out@[0]));
            assert(s@.contains(out@[0]));
        }
    }
    proof {
        in_order_sorts(s@);
        sorted_once_unique(s@, out@, in_order(s@));
    }
    out
}

// ── Laws ──

/// A text of one decimal digit stands for that digit. A digit after a numeral takes its value
/// ten times over and adds the digit, unless that is too large. A plus sign before a digit
/// changes nothing.
pub proof fn numerals_are_positional(s: Seq<char>, c: char, max: nat)
    requires
        '0' <= c <= '9',
        max >= 9,
    ensures
        numeral(seq![c], 10, max) == Ok::<nat, Fault>((c as u32 - '0' as u32) as nat),
        numeral(s, 10, max) matches Ok(v) ==> numeral(s.push(c), 10, max) == (if 10 * v + (c as u32
            - '0' as u32) <= max {
            Ok((10 * v + (c as u32 - '0' as u32)) as nat)
        } else {
            Err(Fault::TooLarge)
        }),
        s.len() > 0 && s[0] != '+' ==> numeral(seq!['+'] + s, 10, max) == numeral(s, 10, max),
{
    let one = seq![c];
    assert(one.drop_last() =~= Seq::<char>::empty());
    assert(scan(one.drop_last(), 10, max) == Ok::<nat, Fault>(0));
    assert(digit(c) == Some((c as u32 - 0x30) as nat));
    if s.len() > 0 {
        let more = s.push(c);
        if s[0] == '+' && s.len() > 1 {
            assert(more.drop_first() =~= s.drop_first().push(c));
            assert(s.drop_first().push(c).drop_last() =~= s.drop_first());
        } else {
            if s[0] == '+' {
                assert(s.drop_last() =~= Seq::<char>::empty());
                assert(scan(s.drop_last(), 10, max) == Ok::<nat, Fault>(0));
                assert(scan(s, 10, max) is Err);
            }
            assert(more.drop_last() =~= s);
        }
        assert((seq!['+'] + s).drop_first() =~= s);
    }
}

/// A decimal numeral has at least one digit, and nothing but digits after its sign.
pub proof fn numerals_hold_digits_only(s: Seq<char>, max: nat, k: int)
    requires
        0 <= k < s.len() || s.len() == 0,
    ensures
        s.len() == 0 ==> numeral(s, 10, max) == Err::<nat, Fault>(Fault::Empty),
        s == seq!['+'] ==> numeral(s, 10, max) is Err,
        s.len() > 0 && !('0' <= s[k] <= '9') && !(k == 0 && s[k] == '+') ==> numeral(s, 10, max)
            is Err,
{
    if s.len() > 0 {
        if s == seq!['+'] {
            assert(s.drop_last() =~= Seq::<char>::empty());
            assert(scan(s.drop_last(), 10, max) == Ok::<nat, Fault>(0));
        }
        if !('0' <= s[k] <= '9') && !(k == 0 && s[k] == '+') {
            if s[0] == '+' && s.len() > 1 {
                assert(s.drop_first()[k - 1] == s[k]);
                no_digit_no_value(s.drop_first(), max, k - 1);
            } else {
                no_digit_no_value(s, max, k);
            }
        }
    }
}

proof fn other_characters_are_no_digits(c: char)
    requires
        !('0' <= c <= '9'),
    ensures
        digit(c) matches Some(d) ==> d >= 10,
{
}

proof fn no_digit_no_value(s: Seq<char>, max: nat, k: int)
    requires
        0 <= k < s.len(),
        !('0' <= s[k] <= '9'),
    ensures
        scan(s, 10, max) is Err,
    decreases s.len(),
{
    if k < s.len() - 1 {
        assert(s.drop_last()[k] == s[k]);
        no_digit_no_value(s.drop_last(), max, k);
    } else {
        assert(s.last() == s[k]);
        other_characters_are_no_digits(s[k]);
    }
}

/// A 32-bit number is read where the text is a decimal numeral of at most 4294967295.
pub proof fn small_numerals_fit(s: Seq<char>)
    ensures
        small_numeral(s) matches Some(v) ==> numeral(s, 10, 4294967295) == Ok::<nat, Fault>(
            v as nat,
        ),
        numeral(s, 10, 4294967295) is Ok ==> small_numeral(s) is Some,
{
    scan_within(s, 10, 4294967295);
    if s.len() > 0 {
        scan_within(s.drop_first(), 10, 4294967295);
    }
}

proof fn scan_within(s: Seq<char>, radix: nat, max: nat)
    ensures
        scan(s, radix, max) matches Ok(v) ==> v <= max,
    decreases s.len(),
{
    if s.len() > 0 {
        scan_within(s.drop_last(), radix, max);
    }
}

/// A number in decimal is written with digits only, at least one, and the first is not zero
/// unless it is the only one.
pub proof fn decimals_are_plain(n: nat)
    ensures
        decimal(n).len() > 0,
        forall|k: int| 0 <= k < decimal(n).len() ==> '0' <= #[trigger] decimal(n)[k] <= '9',
        decimal(n)[0] == '0' ==> n == 0 && decimal(n).len() == 1,
    decreases n,
{
    if n >= 10 {
        decimals_are_plain(n / 10);
        let head = decimal(n / 10);
        assert forall|k: int| 0 <= k < decimal(n).len() implies '0' <= #[trigger] decimal(n)[k]
            <= '9' by {
            if k < head.len() {
                assert(decimal(n)[k] == head[k]);
            }
        }
        assert(decimal(n)[0] == head[0]);
    }
}

/// The value of a hexadecimal digit, in small or large letters.
pub open spec fn hex_value(c: char) -> Option<int> {
    if '0' <= c <= '9' {
        Some(c as int - '0' as int)
    } else if 'a' <= c <= 'f' {
        Some(c as int - 'a' as int + 10)
    } else if 'A' <= c <= 'F' {
        Some(c as int - 'A' as int + 10)
    } else {
        None
    }
}

/// A hexadecimal digit after a numeral takes its value sixteen times over and adds the digit,
/// unless that is too large; anything else after it makes it none.
pub proof fn hex_numerals_are_positional(s: Seq<char>, c: char, max: nat)
    requires
        max >= 15,
    ensures
        hex_value(c) matches Some(d) ==> numeral(seq![c], 16, max) == Ok::<nat, Fault>(d as nat),
        numeral(s, 16, max) matches Ok(v) ==> numeral(s.push(c), 16, max) == (match hex_value(c) {
            Some(d) => if 16 * v + d <= max {
                Ok((16 * v + d) as nat)
            } else {
                Err(Fault::TooLarge)
            },
            None => Err(Fault::InvalidDigit),
        }),
{
    let one = seq![c];
    assert(one.drop_last() =~= Seq::<char>::empty());
    assert(scan(one.drop_last(), 16, max) == Ok::<nat, Fault>(0));
    assert(digit(c) is Some <==> hex_value(c) is Some);
    assert(hex_value(c) matches Some(d) ==> digit(c) == Some(d as nat) && d < 16);
    if s.len() > 0 {
        let more = s.push(c);
        if s[0] == '+' && s.len() > 1 {
            assert(more.drop_first() =~= s.drop_first().push(c));
            assert(s.drop_first().push(c).drop_last() =~= s.drop_first());
        } else {
            if s[0] == '+' {
                assert(s.drop_last() =~= Seq::<char>::empty());
                assert(scan(s.drop_last(), 16, max) == Ok::<nat, Fault>(0));
                assert(digit('+') is None);
                assert(scan(s, 16, max) is Err);
            }
            assert(more.drop_last() =~= s);
        }
    }
}

} // verus!
