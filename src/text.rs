use vstd::prelude::*;
use vstd::string::StrSliceExecFns;
use vstd::string::StringExecFns;

verus! {

/// Relies on `String::push`: the character is appended at the end.
pub assume_specification[ std::string::String::push ](s: &mut std::string::String, ch: char)
    ensures
        final(s)@ == old(s)@.push(ch),
;

pub open spec fn digit_char(d: int) -> char {
    ((48 + d) as u8) as char
}

pub open spec fn is_digit(c: char) -> bool {
    48 <= (c as u32) <= 57
}

pub open spec fn digit_value(c: char) -> int {
    (c as u32) - 48
}

/// Decimal digits of a natural number, without leading zeros.
pub open spec fn nat_text(n: nat) -> Seq<char>
    decreases n,
{
    if n < 10 {
        seq![digit_char(n as int)]
    } else {
        nat_text(n / 10).push(digit_char((n % 10) as int))
    }
}

/// Decimal text of an integer, with a leading `-` when negative.
pub open spec fn int_text(i: int) -> Seq<char> {
    if i < 0 {
        seq!['-'] + nat_text((-i) as nat)
    } else {
        nat_text(i as nat)
    }
}

/// The value of a sequence of decimal digits.
pub open spec fn digits_value(d: Seq<char>) -> int
    decreases d.len(),
{
    if d.len() == 0 {
        0
    } else {
        digits_value(d.drop_last()) * 10 + digit_value(d.last())
    }
}

pub open spec fn all_digits(d: Seq<char>) -> bool {
    forall|i: int| 0 <= i < d.len() ==> is_digit(#[trigger] d[i])
}

pub open spec fn has_sign(s: Seq<char>) -> bool {
    s.len() > 0 && (s[0] == '-' || s[0] == '+')
}

/// The integer that a text denotes: an optional sign and at least one digit,
/// within the range of `i128`.
pub open spec fn parse_int(s: Seq<char>) -> Option<i128> {
    let d = if has_sign(s) { s.drop_first() } else { s };
    let v = if s.len() > 0 && s[0] == '-' { -digits_value(d) } else { digits_value(d) };
    if d.len() == 0 || !all_digits(d) || v < i128::MIN || v > i128::MAX {
        None
    } else {
        Some(v as i128)
    }
}

/// Pieces joined with a separator between each two.
pub open spec fn join(pieces: Seq<Seq<char>>, sep: Seq<char>) -> Seq<char>
    decreases pieces.len(),
{
    if pieces.len() == 0 {
        Seq::empty()
    } else if pieces.len() == 1 {
        pieces[0]
    } else {
        join(pieces.drop_last(), sep) + sep + pieces.last()
    }
}

pub open spec fn bool_text(b: bool) -> Seq<char> {
    if b {
        seq!['t', 'r', 'u', 'e']
    } else {
        seq!['f', 'a', 'l', 's', 'e']
    }
}

/// The string holding exactly the given characters.
pub fn string_of(cs: &Vec<char>) -> (r: String)
    ensures
        r@ == cs@,
{
    let mut r = String::new();
    let mut i: usize = 0;
    while i < cs.len()
        invariant
            i <= cs.len(),
            r@ == cs@.subrange(0, i as int),
        decreases cs.len() - i,
    {
        r.push(cs[i]);
        i += 1;
        assert(r@ =~= cs@.subrange(0, i as int));
    }
    assert(r@ =~= cs@);
    r
}

/// The characters of a string.
pub fn chars_of(s: &str) -> (r: Vec<char>)
    ensures
        r@ == s@,
{
    let n = s.unicode_len();
    let mut r: Vec<char> = Vec::new();
    let mut i: usize = 0;
    while i < n
        invariant
            n == s@.len(),
            i <= n,
            r@ == s@.subrange(0, i as int),
        decreases n - i,
    {
        r.push(s.get_char(i));
        i += 1;
        assert(r@ =~= s@.subrange(0, i as int));
    }
    assert(r@ =~= s@);
    r
}

/// The one-character string holding `c`.
pub fn char_string(c: char) -> (r: String)
    ensures
        r@ == seq![c],
{
    let mut r = String::new();
    r.push(c);
    assert(r@ =~= seq![c]);
    r
}

/// Appends `b` to `a`.
pub fn append_string(a: &mut String, b: &String)
    ensures
        final(a)@ == old(a)@ + b@,
{
    a.append(b.as_str());
}

fn digit_to_char(d: u128) -> (c: char)
    requires
        d < 10,
    ensures
        c == digit_char(d as int),
{
    ((48 + d) as u8) as char
}

fn nat_to_string(n: u128) -> (r: String)
    ensures
        r@ == nat_text(n as nat),
    decreases n,
{
    if n < 10 {
        char_string(digit_to_char(n))
    } else {
        let mut r = nat_to_string(n / 10);
        r.push(digit_to_char(n % 10));
        r
    }
}

/// Decimal text of an integer.
pub fn int_to_string(i: i128) -> (r: String)
    ensures
        r@ == int_text(i as int),
{
    if i < 0 {
        let m: u128 = ((-(i + 1)) as u128) + 1;
        let mut r = char_string('-');
        let t = nat_to_string(m);
        append_string(&mut r, &t);
        r
    } else {
        nat_to_string(i as u128)
    }
}

pub fn bool_to_string(b: bool) -> (r: String)
    ensures
        r@ == bool_text(b),
{
    let mut r = String::new();
    if b {
        r.push('t');
        r.push('r');
        r.push('u');
        r.push('e');
    } else {
        r.push('f');
        r.push('a');
        r.push('l');
        r.push('s');
        r.push('e');
    }
    assert(r@ =~= bool_text(b));
    r
}

proof fn lemma_digits_value_grows(d: Seq<char>, k: int)
    requires
        0 <= k <= d.len(),
        all_digits(d),
    ensures
        digits_value(d.subrange(0, k)) <= digits_value(d),
        0 <= digits_value(d.subrange(0, k)),
    decreases d.len(),
{
    if d.len() > 0 {
        let p = d.drop_last();
        assert(all_digits(p));
        if k < d.len() {
            lemma_digits_value_grows(p, k);
            assert(p.subrange(0, k) =~= d.subrange(0, k));
        } else {
            assert(d.subrange(0, k) =~= d);
            lemma_digits_value_grows(p, 0);
        }
        lemma_digits_value_grows(p, p.len() as int);
        assert(p.subrange(0, p.len() as int) =~= p);
    }
}

fn digits_from(cs: &Vec<char>, start: usize) -> (r: bool)
    requires
        start <= cs@.len(),
    ensures
        r == all_digits(cs@.subrange(start as int, cs@.len() as int)),
{
    let ghost d = cs@.subrange(start as int, cs@.len() as int);
    let mut j: usize = start;
    while j < cs.len()
        invariant
            start <= j <= cs@.len(),
            d == cs@.subrange(start as int, cs@.len() as int),
            forall|t: int| start <= t < j ==> is_digit(#[trigger] cs@[t]),
        decreases cs.len() - j,
    {
        let c = cs[j];
        if !(48 <= (c as u32) && (c as u32) <= 57) {
            assert(!is_digit(d[j - start]));
            return false;
        }
        j += 1;
    }
    assert forall|t: int| 0 <= t < d.len() implies is_digit(#[trigger] d[t]) by {
        assert(d[t] == cs@[t + start]);
    }
    true
}

/// Parses the decimal text of an integer.
pub fn parse_int_str(s: &String) -> (r: Option<i128>)
    ensures
        r == parse_int(s@),
{
    let cs = chars_of(s.as_str());
    let n = cs.len();
    let neg = n > 0 && cs[0] == '-';
    let start: usize = if n > 0 && (cs[0] == '-' || cs[0] == '+') { 1 } else { 0 };
    let ghost d = if has_sign(s@) { s@.drop_first() } else { s@ };
    assert(d =~= cs@.subrange(start as int, n as int));
    if start == n || !digits_from(&cs, start) {
        return None;
    }
    let limit: u128 = if neg { 170141183460469231731687303715884105728 } else { 170141183460469231731687303715884105727 };
    let mut acc: u128 = 0;
    let mut i: usize = start;
    while i < n
        invariant
            start <= i <= n,
            n == cs@.len(),
            d == cs@.subrange(start as int, n as int),
            d == (if has_sign(s@) { s@.drop_first() } else { s@ }),
            neg == (s@.len() > 0 && s@[0] == '-'),
            limit == (if neg { 170141183460469231731687303715884105728u128 } else { 170141183460469231731687303715884105727u128 }),
            all_digits(d),
            acc <= limit,
            acc as int == digits_value(d.subrange(0, i - start)),
        decreases n - i,
    {
        assert(is_digit(d[i - start]));
        let dv = (cs[i] as u32 - 48) as u128;
        let ghost p = d.subrange(0, i - start + 1);
        assert(p.drop_last() =~= d.subrange(0, i - start));
        assert(p.last() == d[i - start]);
        let next = match acc.checked_mul(10) {
            Some(m) => m.checked_add(dv),
            None => None,
        };
        match next {
            Some(v) if v <= limit => {
                acc = v;
            },
            _ => {
                proof {
                    lemma_digits_value_grows(d, i - start + 1);
                    assert(digits_value(p) == acc * 10 + dv);
                    assert(digits_value(d) > limit);
                }
                return None;
            },
        }
        i += 1;
    }
    assert(d.subrange(0, n - start) =~= d);
    if neg {
        if acc == 170141183460469231731687303715884105728 {
            Some(i128::MIN)
        } else {
            Some(-(acc as i128))
        }
    } else {
        Some(acc as i128)
    }
}

/// Joins the pieces with the separator between each two.
pub fn join_strings(pieces: &Vec<String>, sep: &String) -> (r: String)
    ensures
        r@ == join(pieces@.map_values(|p: String| p@), sep@),
{
    let ghost ps = pieces@.map_values(|p: String| p@);
    let mut r = String::new();
    let mut i: usize = 0;
    while i < pieces.len()
        invariant
            i <= pieces.len(),
            ps == pieces@.map_values(|p: String| p@),
            r@ == join(ps.subrange(0, i as int), sep@),
        decreases pieces.len() - i,
    {
        if i > 0 {
            append_string(&mut r, sep);
        }
        append_string(&mut r, &pieces[i]);
        i += 1;
        let ghost q = ps.subrange(0, i as int);
        assert(q.drop_last() =~= ps.subrange(0, i - 1));
    }
    assert(ps.subrange(0, i as int) =~= ps);
    r
}

} // verus!
