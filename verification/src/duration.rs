//! Duration codec: conversion between a seconds count and the display
//! string `"Xh Ym Zs"`.
//!
//! `format_duration` renders a seconds count with no zero-suppression
//! and no padding; `parse_duration` tokenizes an arbitrary string on
//! whitespace, reads tokens that end in `h`, `m` or `s`, and lets the
//! last token of each unit win.  Unparseable tokens contribute zero.

use vstd::prelude::*;
use vstd::string::StrSliceExecFns;
use vstd::string::StringExecFns;

verus! {

/// Separator characters for duration tokenization: the Unicode
/// white-space characters, the set the standard whitespace split and
/// trim go by.
pub open spec fn is_space(c: char) -> bool {
    c == ' ' || c == '\t' || c == '\n' || c == '\r' || c == '\u{b}' || c == '\u{c}'
        || c == '\u{85}' || c == '\u{a0}' || c == '\u{1680}' || ('\u{2000}' <= c
        && c <= '\u{200a}') || c == '\u{2028}' || c == '\u{2029}' || c == '\u{202f}'
        || c == '\u{205f}' || c == '\u{3000}'
}

/// Whether a character is Unicode white space; mirrors `is_space`.
pub fn is_space_char(c: char) -> (r: bool)
    ensures
        r == is_space(c),
{
    c == ' ' || c == '\t' || c == '\n' || c == '\r' || c == '\u{b}' || c == '\u{c}'
        || c == '\u{85}' || c == '\u{a0}' || c == '\u{1680}' || ('\u{2000}' <= c
        && c <= '\u{200a}') || c == '\u{2028}' || c == '\u{2029}' || c == '\u{202f}'
        || c == '\u{205f}' || c == '\u{3000}'
}

/// A decimal digit character.
pub open spec fn is_digit_char(c: char) -> bool {
    '0' <= c && c <= '9'
}

/// Numeric value of a digit character.
pub open spec fn digit_val(c: char) -> nat {
    (c as int - '0' as int) as nat
}

/// The digit character for a value below ten.
pub open spec fn digit_char(d: nat) -> char {
    if d == 0 {
        '0'
    } else if d == 1 {
        '1'
    } else if d == 2 {
        '2'
    } else if d == 3 {
        '3'
    } else if d == 4 {
        '4'
    } else if d == 5 {
        '5'
    } else if d == 6 {
        '6'
    } else if d == 7 {
        '7'
    } else if d == 8 {
        '8'
    } else {
        '9'
    }
}

/// Decimal representation of a natural number, most significant digit
/// first, with no sign and no leading zeros (except for zero itself).
pub open spec fn dec_str(n: nat) -> Seq<char>
    decreases n,
{
    if n < 10 {
        seq![digit_char(n)]
    } else {
        dec_str(n / 10).push(digit_char(n % 10))
    }
}

/// Value of a sequence of digit characters read in base ten.
pub open spec fn digits_val(s: Seq<char>) -> nat
    decreases s.len(),
{
    if s.len() == 0 {
        0
    } else {
        10 * digits_val(s.drop_last()) + digit_val(s.last())
    }
}

/// Every character of the sequence is a decimal digit.
pub open spec fn all_digits(s: Seq<char>) -> bool {
    forall|i: int| 0 <= i < s.len() ==> is_digit_char(#[trigger] s[i])
}

/// The display string built from an hour, minute and second count:
/// `"Xh Ym Zs"` with single spaces and no padding.
pub open spec fn format_parts(h: nat, m: nat, z: nat) -> Seq<char> {
    dec_str(h) + seq!['h', ' '] + dec_str(m) + seq!['m', ' '] + dec_str(z) + seq!['s']
}

/// The canonical display string for a seconds count.
pub open spec fn format_spec(n: nat) -> Seq<char> {
    format_parts(n / 3600, (n % 3600) / 60, n % 60)
}

/// Numeric prefix of a token with one optional leading plus sign
/// stripped, mirroring what unsigned decimal parsing accepts.
pub open spec fn numeric_body(p: Seq<char>) -> Seq<char> {
    if p.len() > 0 && p[0] == '+' {
        p.drop_first()
    } else {
        p
    }
}

/// The value a token's numeric prefix parses to: defined exactly when
/// the prefix, after an optional `+`, is a nonempty digit string whose
/// value fits in a 64-bit unsigned integer.
pub open spec fn numeric_value(p: Seq<char>) -> Option<u64> {
    let b = numeric_body(p);
    if b.len() > 0 && all_digits(b) && digits_val(b) <= u64::MAX {
        Some(digits_val(b) as u64)
    } else {
        None
    }
}

/// The component value a whole token contributes: its numeric prefix,
/// or zero when the prefix does not parse.
pub open spec fn unit_val(t: Seq<char>) -> u64 {
    match numeric_value(t.drop_last()) {
        Some(v) => v,
        None => 0,
    }
}

/// Effect of one whitespace-delimited token on the accumulated
/// `(hours, minutes, seconds)` triple: a token ending in `h`, `m` or
/// `s` overwrites that component; any other token is ignored.
pub open spec fn apply_token(acc: (u64, u64, u64), t: Seq<char>) -> (u64, u64, u64) {
    if t.len() > 0 && t.last() == 'h' {
        (unit_val(t), acc.1, acc.2)
    } else if t.len() > 0 && t.last() == 'm' {
        (acc.0, unit_val(t), acc.2)
    } else if t.len() > 0 && t.last() == 's' {
        (acc.0, acc.1, unit_val(t))
    } else {
        acc
    }
}

/// Commits the token gathered so far, if any, to the accumulator.
pub open spec fn commit_cur(acc: (u64, u64, u64), cur: Seq<char>) -> (u64, u64, u64) {
    if cur.len() == 0 {
        acc
    } else {
        apply_token(acc, cur)
    }
}

/// Left-to-right scan of a duration string: `cur` is the token being
/// gathered, committed at each separator and at the end.
pub open spec fn scan(s: Seq<char>, acc: (u64, u64, u64), cur: Seq<char>) -> (u64, u64, u64)
    decreases s.len(),
{
    if s.len() == 0 {
        commit_cur(acc, cur)
    } else if is_space(s[0]) {
        scan(s.drop_first(), commit_cur(acc, cur), Seq::empty())
    } else {
        scan(s.drop_first(), acc, cur.push(s[0]))
    }
}

/// The `(hours, minutes, seconds)` triple a string parses to.
pub open spec fn parse_parts(s: Seq<char>) -> (u64, u64, u64) {
    scan(s, (0u64, 0u64, 0u64), Seq::empty())
}

/// Total seconds a string parses to, as an unbounded integer.
pub open spec fn parse_total(s: Seq<char>) -> int {
    3600 * parse_parts(s).0 + 60 * parse_parts(s).1 + parse_parts(s).2
}

/// Total seconds a string parses to, saturated at `u64::MAX`.
pub open spec fn parse_spec(s: Seq<char>) -> u64 {
    if parse_total(s) > u64::MAX {
        u64::MAX
    } else {
        parse_total(s) as u64
    }
}

/// One-character string for a decimal digit.
fn digit_str(d: u64) -> (r: &'static str)
    requires
        d < 10,
    ensures
        r@ =~= seq![digit_char(d as nat)],
{
    proof {
        reveal_strlit("0");
        reveal_strlit("1");
        reveal_strlit("2");
        reveal_strlit("3");
        reveal_strlit("4");
        reveal_strlit("5");
        reveal_strlit("6");
        reveal_strlit("7");
        reveal_strlit("8");
        reveal_strlit("9");
    }
    if d == 0 {
        "0"
    } else if d == 1 {
        "1"
    } else if d == 2 {
        "2"
    } else if d == 3 {
        "3"
    } else if d == 4 {
        "4"
    } else if d == 5 {
        "5"
    } else if d == 6 {
        "6"
    } else if d == 7 {
        "7"
    } else if d == 8 {
        "8"
    } else {
        "9"
    }
}

/// Decimal rendering of an unsigned integer.
fn u64_to_dec(n: u64) -> (r: String)
    ensures
        r@ == dec_str(n as nat),
    decreases n,
{
    if n < 10 {
        let r = digit_str(n).to_owned();
        proof {
            assert(r@ =~= dec_str(n as nat));
        }
        r
    } else {
        let mut r = u64_to_dec(n / 10);
        r.append(digit_str(n % 10));
        proof {
            assert(r@ =~= dec_str(n as nat));
        }
        r
    }
}

/// Formats a seconds count as the display string `"Xh Ym Zs"` with
/// `X = s/3600`, `Y = (s%3600)/60`, `Z = s%60`.
pub fn format_duration(seconds: u64) -> (r: String)
    ensures
        r@ == format_spec(seconds as nat),
{
    let h = seconds / 3600;
    let m = (seconds % 3600) / 60;
    let z = seconds % 60;
    let mut r = u64_to_dec(h);
    r.append("h ");
    let md = u64_to_dec(m);
    r.append(md.as_str());
    r.append("m ");
    let zd = u64_to_dec(z);
    r.append(zd.as_str());
    r.append("s");
    proof {
        reveal_strlit("h ");
        reveal_strlit("m ");
        reveal_strlit("s");
        assert("h "@ =~= seq!['h', ' ']);
        assert("m "@ =~= seq!['m', ' ']);
        assert("s"@ =~= seq!['s']);
        assert(r@ =~= format_spec(seconds as nat));
    }
    r
}

/// Value of the digit run `t[start..end]`, `None` on a non-digit, an
/// empty run, or overflow, matching `numeric_value` on the prefix.
fn digits_value_exec(t: &Vec<char>, start: usize, end: usize) -> (r: Option<u64>)
    requires
        start <= end <= t@.len(),
        numeric_body(t@.take(end as int)) == t@.subrange(start as int, end as int),
    ensures
        r == numeric_value(t@.take(end as int)),
{
    let ghost b = t@.subrange(start as int, end as int);
    if start == end {
        return None;
    }
    let mut acc: u64 = 0;
    let mut over: bool = false;
    let mut j: usize = start;
    while j < end
        invariant
            start <= j <= end <= t@.len(),
            b == t@.subrange(start as int, end as int),
            numeric_body(t@.take(end as int)) == b,
            b.len() > 0,
            all_digits(b.take(j - start)),
            !over ==> acc == digits_val(b.take(j - start)),
            over ==> digits_val(b.take(j - start)) > u64::MAX,
        decreases end - j,
    {
        let c = t[j];
        proof {
            assert(b.take(j + 1 - start).drop_last() =~= b.take(j - start));
            assert(b.take(j + 1 - start).last() == t@[j as int]);
        }
        if !('0' <= c && c <= '9') {
            proof {
                assert(!is_digit_char(b[j - start]));
                assert(!all_digits(b));
            }
            return None;
        }
        let d: u64 = (c as u64) - ('0' as u64);
        proof {
            assert(digit_val(b.take(j + 1 - start).last()) == d);
            assert(digits_val(b.take(j + 1 - start)) == 10 * digits_val(b.take(j - start)) + d);
        }
        if over {
            proof {
                assert(digits_val(b.take(j + 1 - start)) > u64::MAX);
            }
        } else if acc > (u64::MAX - d) / 10 {
            proof {
                let q = (u64::MAX - d) / 10;
                assert(10 * q + (u64::MAX - d) % 10 == u64::MAX - d);
                assert(10 * acc + d > u64::MAX);
            }
            over = true;
        } else {
            proof {
                let q = (u64::MAX - d) / 10;
                assert(10 * q + (u64::MAX - d) % 10 == u64::MAX - d);
                assert(10 * acc + d <= u64::MAX);
            }
            acc = acc * 10 + d;
        }
        j += 1;
    }
    proof {
        assert(b.take(end - start) =~= b);
    }
    if over {
        None
    } else {
        Some(acc)
    }
}

/// Value of the numeric prefix `t[0..end]` of a token, `None` when it
/// does not parse as an unsigned 64-bit decimal.
fn numeric_prefix_value(t: &Vec<char>, end: usize) -> (r: Option<u64>)
    requires
        end <= t@.len(),
    ensures
        r == numeric_value(t@.take(end as int)),
{
    let ghost p = t@.take(end as int);
    if end > 0 && t[0] == '+' {
        proof {
            assert(numeric_body(p) =~= t@.subrange(1, end as int));
        }
        digits_value_exec(t, 1, end)
    } else {
        proof {
            assert(numeric_body(p) =~= t@.subrange(0, end as int));
        }
        digits_value_exec(t, 0, end)
    }
}

/// Applies one gathered token to the `(hours, minutes, seconds)`
/// accumulator.
fn commit_token(acc: (u64, u64, u64), cur: &Vec<char>) -> (r: (u64, u64, u64))
    requires
        cur@.len() > 0,
    ensures
        r == apply_token(acc, cur@),
{
    let lastc = cur[cur.len() - 1];
    proof {
        assert(cur@.take(cur@.len() - 1) =~= cur@.drop_last());
    }
    if lastc == 'h' {
        let v = match numeric_prefix_value(cur, cur.len() - 1) {
            Some(v) => v,
            None => 0,
        };
        (v, acc.1, acc.2)
    } else if lastc == 'm' {
        let v = match numeric_prefix_value(cur, cur.len() - 1) {
            Some(v) => v,
            None => 0,
        };
        (acc.0, v, acc.2)
    } else if lastc == 's' {
        let v = match numeric_prefix_value(cur, cur.len() - 1) {
            Some(v) => v,
            None => 0,
        };
        (acc.0, acc.1, v)
    } else {
        acc
    }
}

/// Parses a duration display string into total seconds.
///
/// The string is tokenized on whitespace; tokens ending in `h`, `m`
/// or `s` contribute their numeric prefix times 3600, 60 or 1, the
/// last token of a unit winning; anything unparseable contributes
/// zero, and the empty string parses to zero.  The total is saturated
/// at `u64::MAX`.
pub fn parse_duration(s: &str) -> (r: u64)
    ensures
        r == parse_spec(s@),
{
    let n = s.unicode_len();
    let mut acc: (u64, u64, u64) = (0, 0, 0);
    let mut cur: Vec<char> = Vec::new();
    let mut i: usize = 0;
    proof {
        assert(s@.skip(0) =~= s@);
    }
    while i < n
        invariant
            n == s@.len(),
            i <= n,
            parse_parts(s@) == scan(s@.skip(i as int), acc, cur@),
        decreases n - i,
    {
        let c = s.get_char(i);
        proof {
            assert(s@.skip(i as int)[0] == s@[i as int]);
            assert(s@.skip(i as int).drop_first() =~= s@.skip(i + 1));
        }
        if is_space_char(c) {
            if cur.len() > 0 {
                acc = commit_token(acc, &cur);
            }
            cur = Vec::new();
        } else {
            cur.push(c);
        }
        i += 1;
    }
    proof {
        assert(s@.skip(n as int) =~= Seq::<char>::empty());
    }
    let fin: (u64, u64, u64) = if cur.len() > 0 {
        commit_token(acc, &cur)
    } else {
        acc
    };
    proof {
        assert(fin == parse_parts(s@));
    }
    let total: u128 = (fin.0 as u128) * 3600 + (fin.1 as u128) * 60 + (fin.2 as u128);
    if total > u64::MAX as u128 {
        u64::MAX
    } else {
        total as u64
    }
}

/// The decimal rendering of a number is a nonempty digit string whose
/// value is the number itself.
proof fn lemma_dec_str_props(n: nat)
    ensures
        dec_str(n).len() > 0,
        all_digits(dec_str(n)),
        digits_val(dec_str(n)) == n,
    decreases n,
{
    if n < 10 {
        let s = dec_str(n);
        assert(s =~= seq![digit_char(n)]);
        assert(s.drop_last() =~= Seq::<char>::empty());
        assert(digits_val(Seq::<char>::empty()) == 0);
        assert(s.last() == digit_char(n));
        assert(digits_val(s) == digit_val(digit_char(n)));
    } else {
        lemma_dec_str_props(n / 10);
        let p = dec_str(n / 10);
        let s = dec_str(n);
        assert(s == p.push(digit_char(n % 10)));
        assert(s.drop_last() =~= p);
        assert(s.last() == digit_char(n % 10));
        assert(digit_val(digit_char(n % 10)) == n % 10);
        assert(digits_val(s) == 10 * (n / 10) + n % 10);
        assert forall|i: int| 0 <= i < s.len() implies is_digit_char(#[trigger] s[i]) by {
            if i < s.len() - 1 {
                assert(s[i] == p[i]);
            } else {
                assert(s[i] == digit_char(n % 10));
            }
        }
    }
}

/// Scanning a whitespace-free prefix only extends the gathered token.
proof fn lemma_scan_token(t: Seq<char>, rest: Seq<char>, acc: (u64, u64, u64), cur: Seq<char>)
    requires
        forall|i: int| 0 <= i < t.len() ==> !is_space(#[trigger] t[i]),
    ensures
        scan(t + rest, acc, cur) == scan(rest, acc, cur + t),
    decreases t.len(),
{
    if t.len() == 0 {
        assert(t + rest =~= rest);
        assert(cur + t =~= cur);
    } else {
        let s = t + rest;
        assert(s[0] == t[0]);
        assert(s.drop_first() =~= t.drop_first() + rest);
        assert(forall|i: int| 0 <= i < t.drop_first().len() ==> !is_space(
            #[trigger] t.drop_first()[i],
        ));
        lemma_scan_token(t.drop_first(), rest, acc, cur.push(t[0]));
        assert(cur.push(t[0]) + t.drop_first() =~= cur + t);
    }
}

/// The three tokens of a formatted duration parse back to its parts.
proof fn lemma_parse_format_parts(h: nat, m: nat, z: nat)
    requires
        h <= u64::MAX,
        m <= u64::MAX,
        z <= u64::MAX,
    ensures
        parse_parts(format_parts(h, m, z)) == (h as u64, m as u64, z as u64),
{
    lemma_dec_str_props(h);
    lemma_dec_str_props(m);
    lemma_dec_str_props(z);
    let a = dec_str(h);
    let b = dec_str(m);
    let c = dec_str(z);
    let t1 = a + seq!['h'];
    let t2 = b + seq!['m'];
    let t3 = c + seq!['s'];
    let full = format_parts(h, m, z);
    let acc0 = (0u64, 0u64, 0u64);
    let r2 = t2 + (seq![' '] + t3);
    let r1 = seq![' '] + r2;

    assert(forall|i: int| 0 <= i < t1.len() ==> !is_space(#[trigger] t1[i]));
    assert(forall|i: int| 0 <= i < t2.len() ==> !is_space(#[trigger] t2[i]));
    assert(forall|i: int| 0 <= i < t3.len() ==> !is_space(#[trigger] t3[i]));

    assert(full =~= t1 + r1);
    lemma_scan_token(t1, r1, acc0, Seq::empty());
    assert(Seq::<char>::empty() + t1 =~= t1);
    assert(scan(full, acc0, Seq::empty()) == scan(r1, acc0, t1));

    assert(r1[0] == ' ');
    assert(r1.drop_first() =~= r2);
    assert(scan(r1, acc0, t1) == scan(r2, commit_cur(acc0, t1), Seq::empty()));
    assert(t1.last() == 'h');
    assert(t1.drop_last() =~= a);
    assert(numeric_body(a) == a);
    assert(numeric_value(a) == Some(h as u64));
    let acc1 = (h as u64, 0u64, 0u64);
    assert(commit_cur(acc0, t1) == acc1);

    lemma_scan_token(t2, seq![' '] + t3, acc1, Seq::empty());
    assert(Seq::<char>::empty() + t2 =~= t2);
    assert(scan(r2, acc1, Seq::empty()) == scan(seq![' '] + t3, acc1, t2));

    assert((seq![' '] + t3)[0] == ' ');
    assert((seq![' '] + t3).drop_first() =~= t3);
    assert(scan(seq![' '] + t3, acc1, t2) == scan(t3, commit_cur(acc1, t2), Seq::empty()));
    assert(t2.last() == 'm');
    assert(t2.drop_last() =~= b);
    assert(numeric_body(b) == b);
    assert(numeric_value(b) == Some(m as u64));
    let acc2 = (h as u64, m as u64, 0u64);
    assert(commit_cur(acc1, t2) == acc2);

    assert(t3 =~= t3 + Seq::<char>::empty());
    lemma_scan_token(t3, Seq::empty(), acc2, Seq::empty());
    assert(Seq::<char>::empty() + t3 =~= t3);
    assert(scan(t3, acc2, Seq::empty()) == scan(Seq::empty(), acc2, t3));
    assert(t3.last() == 's');
    assert(t3.drop_last() =~= c);
    assert(numeric_body(c) == c);
    assert(numeric_value(c) == Some(z as u64));
    assert(scan(Seq::<char>::empty(), acc2, t3) == commit_cur(acc2, t3));
    assert(commit_cur(acc2, t3) == (h as u64, m as u64, z as u64));
}

/// Round-trip law: parsing a formatted duration gives back the
/// seconds count, for every unsigned 64-bit count.
pub proof fn lemma_duration_round_trip(n: u64)
    ensures
        parse_spec(format_spec(n as nat)) == n,
{
    let h = (n as nat) / 3600;
    let m = ((n as nat) % 3600) / 60;
    let z = (n as nat) % 60;
    vstd::arithmetic::div_mod::lemma_fundamental_div_mod(n as int, 3600);
    vstd::arithmetic::div_mod::lemma_fundamental_div_mod((n as int) % 3600, 60);
    vstd::arithmetic::div_mod::lemma_mod_mod(n as int, 60, 60);
    assert(((n as int) % 3600) % 60 == (n as int) % 60);
    lemma_parse_format_parts(h, m, z);
    assert(parse_total(format_parts(h, m, z)) == 3600 * h + 60 * m + z);
    assert(3600 * h + 60 * m + z == n);
}

/// The zero total renders as `"0h 0m 0s"`, and that display string
/// parses back to zero: the starting point of every fresh game.
pub proof fn lemma_zero_duration_display()
    ensures
        format_spec(0) == "0h 0m 0s"@,
        parse_spec("0h 0m 0s"@) == 0,
{
    reveal_strlit("0h 0m 0s");
    assert(format_spec(0) =~= "0h 0m 0s"@);
    lemma_duration_round_trip(0);
}

/// A string of the canonical duration shape: a digit run, `h`, one
/// space, a digit run, `m`, one space, a digit run, `s`, with the
/// minute and second values below sixty.
pub open spec fn canonical_duration(t: Seq<char>) -> bool {
    exists|a: Seq<char>, b: Seq<char>, c: Seq<char>|
        #![auto]
        a.len() > 0 && all_digits(a) && b.len() > 0 && all_digits(b) && digits_val(b) < 60
            && c.len() > 0 && all_digits(c) && digits_val(c) < 60 && t == a + seq!['h', ' '] + b
            + seq!['m', ' '] + c + seq!['s']
}

/// Well-formedness law: a formatted duration always has the canonical
/// shape, its minute and second components below sixty.
pub proof fn lemma_duration_well_formed(n: u64)
    ensures
        canonical_duration(format_spec(n as nat)),
{
    let h = (n as nat) / 3600;
    let m = ((n as nat) % 3600) / 60;
    let z = (n as nat) % 60;
    lemma_dec_str_props(h);
    lemma_dec_str_props(m);
    lemma_dec_str_props(z);
    let a = dec_str(h);
    let b = dec_str(m);
    let c = dec_str(z);
    assert(m < 60);
    assert(z < 60);
    assert(format_spec(n as nat) == a + seq!['h', ' '] + b + seq!['m', ' '] + c + seq!['s']);
}

} // verus!
