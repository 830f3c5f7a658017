//! Dotted-address arithmetic: parsing dotted lists of decimal octets,
//! octet-wise wrapping addition and subtraction, and the XOR form used
//! for 128-bit addresses.

use vstd::prelude::*;

verus! {

/// The query parameters of the address endpoints: a source address and,
/// depending on the operation, a key or a destination.
pub struct Day2Params {
    pub from: String,
    pub key: Option<String>,
    pub to: Option<String>,
}

/// A decimal digit character.
pub open spec fn is_dec_digit(c: char) -> bool {
    48 <= c as u32 <= 57
}

/// The numeric value of a decimal digit character.
pub open spec fn digit_val(c: char) -> int {
    c as u32 - 48
}

/// The decimal digit character of a value below ten.
pub open spec fn digit_char(d: int) -> char {
    if d == 0 {
        '0'
    } else if d == 1 {
        '1'
    } else if d == 2 {
        '2'
    } else if d == 3 {
        '3'
    } else if d == 4 {
        '4'
    } else if d == 5 {
        '5'
    } else if d == 6 {
        '6'
    } else if d == 7 {
        '7'
    } else if d == 8 {
        '8'
    } else {
        '9'
    }
}

/// The value of a digit string read left to right.
pub open spec fn dec_val(s: Seq<char>) -> int
    decreases s.len(),
{
    if s.len() == 0 {
        0
    } else {
        dec_val(s.drop_last()) * 10 + digit_val(s.last())
    }
}

/// Every character is a decimal digit.
pub open spec fn all_digits(s: Seq<char>) -> bool {
    forall|i: int| 0 <= i < s.len() ==> is_dec_digit(#[trigger] s[i])
}

/// The digit part of an octet string: one leading plus sign is allowed
/// and stripped.
pub open spec fn digits_part(s: Seq<char>) -> Seq<char> {
    if s.len() > 0 && s[0] == '+' {
        s.subrange(1, s.len() as int)
    } else {
        s
    }
}

/// A well-formed octet string: an optional plus sign, then one or more
/// decimal digits, denoting a value below 256.
pub open spec fn valid_octet(s: Seq<char>) -> bool {
    &&& digits_part(s).len() > 0
    &&& all_digits(digits_part(s))
    &&& dec_val(digits_part(s)) < 256
}

/// A digit string's value only grows as digits are appended: once a
/// prefix exceeds 255 the whole string does.
proof fn lemma_dec_val_grows(d: Seq<char>, k: int)
    requires
        0 <= k <= d.len(),
        all_digits(d),
        dec_val(d.take(k)) > 255,
    ensures
        dec_val(d) > 255,
    decreases d.len() - k,
{
    if k == d.len() {
        assert(d.take(k) =~= d);
    } else {
        assert(d.take(k + 1).drop_last() =~= d.take(k));
        assert(d.take(k + 1).last() == d[k]);
        assert(is_dec_digit(d[k]));
        assert(dec_val(d.take(k + 1)) == dec_val(d.take(k)) * 10 + digit_val(d[k]));
        lemma_dec_val_grows(d, k + 1);
    }
}

/// Wrap-around addition of two octet values.
pub open spec fn wrap_add(a: int, b: int) -> int {
    if a + b > 255 {
        a + b - 256
    } else {
        a + b
    }
}

/// Wrap-around subtraction of two octet values.
pub open spec fn wrap_sub(a: int, b: int) -> int {
    if a - b < 0 {
        a - b + 256
    } else {
        a - b
    }
}

/// The decimal digit characters of `n`, most significant first.
pub open spec fn dec_str(n: int) -> Seq<char>
    decreases n,
{
    if n < 10 {
        seq![digit_char(n)]
    } else {
        dec_str(n / 10).push(digit_char(n % 10))
    }
}

/// The dotted rendering of a list of octet values.
pub open spec fn render_octets(vals: Seq<int>) -> Seq<char>
    decreases vals.len(),
{
    if vals.len() == 0 {
        Seq::<char>::empty()
    } else if vals.len() == 1 {
        dec_str(vals[0])
    } else {
        render_octets(vals.drop_last()) + seq!['.'] + dec_str(vals.last())
    }
}

/// The pieces of `s` between dot separators, in order. Splitting the
/// empty sequence gives one empty piece, as `str::split` does.
pub open spec fn split_dots(s: Seq<char>) -> Seq<Seq<char>>
    decreases s.len(),
{
    if s.len() == 0 {
        seq![Seq::<char>::empty()]
    } else {
        let rest = split_dots(s.drop_last());
        if s.last() == '.' {
            rest.push(Seq::<char>::empty())
        } else {
            rest.update(rest.len() - 1, rest.last().push(s.last()))
        }
    }
}

/// Every piece of a dotted string is a well-formed octet string.
pub open spec fn valid_octets(s: Seq<char>) -> bool {
    forall|i: int| 0 <= i < split_dots(s).len() ==> valid_octet(#[trigger] split_dots(s)[i])
}

/// The octet values of a dotted string, piece by piece; meaningful when
/// the string is well formed.
pub open spec fn octets_of(s: Seq<char>) -> Seq<int> {
    split_dots(s).map_values(|p: Seq<char>| dec_val(digits_part(p)))
}

/// Split a string on dots into its pieces.
fn split_pieces(s: &str) -> (r: Vec<Vec<char>>)
    ensures
        r@.map_values(|v: Vec<char>| v@) == split_dots(s@),
{
    let n = s.unicode_len();
    let mut done: Vec<Vec<char>> = Vec::new();
    let mut cur: Vec<char> = Vec::new();
    proof {
        assert(s@.take(0) =~= Seq::<char>::empty());
        assert(done@.map_values(|v: Vec<char>| v@).push(cur@) =~= split_dots(s@.take(0)));
    }
    let mut i: usize = 0;
    while i < n
        invariant
            i <= n == s@.len(),
            done@.map_values(|v: Vec<char>| v@).push(cur@) == split_dots(s@.take(i as int)),
        decreases n - i,
    {
        let c = s.get_char(i);
        proof {
            assert(s@.take(i + 1).drop_last() =~= s@.take(i as int));
            assert(s@.take(i + 1).last() == s@[i as int]);
        }
        let ghost before = split_dots(s@.take(i as int));
        if c == '.' {
            done.push(cur);
            cur = Vec::new();
            proof {
                assert(done@.map_values(|v: Vec<char>| v@).push(cur@) =~= before.push(
                    Seq::<char>::empty(),
                ));
            }
        } else {
            cur.push(c);
            proof {
                assert(done@.map_values(|v: Vec<char>| v@).push(cur@) =~= before.update(
                    before.len() - 1,
                    before.last().push(s@[i as int]),
                ));
            }
        }
        i += 1;
    }
    proof {
        assert(s@.take(n as int) =~= s@);
    }
    done.push(cur);
    proof {
        assert(done@.map_values(|v: Vec<char>| v@) =~= split_dots(s@));
    }
    done
}

/// Parse a dotted list of decimal octets; `None` exactly when some piece
/// is malformed.
pub fn parse_octets(s: &str) -> (r: Option<Vec<u8>>)
    ensures
        (r is Some) == valid_octets(s@),
        r matches Some(v) ==> v@.map_values(|b: u8| b as int) == octets_of(s@),
{
    let pieces = split_pieces(s);
    let ghost parts = split_dots(s@);
    let mut out: Vec<u8> = Vec::new();
    let mut j: usize = 0;
    while j < pieces.len()
        invariant
            j <= pieces@.len(),
            pieces@.map_values(|v: Vec<char>| v@) == parts,
            parts == split_dots(s@),
            out@.len() == j,
            forall|k: int| 0 <= k < j ==> valid_octet(#[trigger] parts[k]),
            forall|k: int|
                0 <= k < j ==> (#[trigger] out@[k]) as int == dec_val(digits_part(parts[k])),
        decreases pieces@.len() - j,
    {
        proof {
            assert(pieces@.map_values(|v: Vec<char>| v@)[j as int] == pieces@[j as int]@);
        }
        match parse_octet(&pieces[j]) {
            Some(v) => {
                out.push(v);
            },
            None => {
                proof {
                    assert(!valid_octet(parts[j as int]));
                }
                return None;
            },
        }
        j += 1;
    }
    proof {
        assert(out@.map_values(|b: u8| b as int) =~= octets_of(s@));
    }
    Some(out)
}

/// Parse one octet string; `None` exactly on malformed input.
pub fn parse_octet(p: &Vec<char>) -> (r: Option<u8>)
    ensures
        (r is Some) == valid_octet(p@),
        r matches Some(v) ==> v as int == dec_val(digits_part(p@)),
{
    let ghost d = digits_part(p@);
    let mut i: usize = 0;
    if p.len() > 0 && p[0] == '+' {
        i = 1;
    }
    let ghost st = i as int;
    proof {
        assert(d =~= p@.subrange(st, p@.len() as int));
    }
    if i >= p.len() {
        proof {
            assert(d.len() == 0);
        }
        return None;
    }
    let mut acc: u32 = 0;
    while i < p.len()
        invariant
            st <= i <= p@.len(),
            st == 0 || st == 1,
            d == digits_part(p@),
            d == p@.subrange(st, p@.len() as int),
            all_digits(d.take(i - st)),
            acc <= 255,
            acc as int == dec_val(d.take(i - st)),
        decreases p@.len() - i,
    {
        let c = p[i];
        let cv = c as u32;
        proof {
            assert(d[i - st] == p@[i as int]);
        }
        if cv < 48 || cv > 57 {
            proof {
                assert(!is_dec_digit(d[i - st]));
            }
            return None;
        }
        let ghost prev = i - st;
        acc = acc * 10 + (cv - 48);
        proof {
            assert(d.take(prev + 1).drop_last() =~= d.take(prev));
            assert(d.take(prev + 1).last() == d[prev]);
            assert(acc as int == dec_val(d.take(prev + 1)));
            assert(all_digits(d.take(prev + 1)));
        }
        if acc > 255 {
            proof {
                if all_digits(d) {
                    lemma_dec_val_grows(d, prev + 1);
                }
            }
            return None;
        }
        i += 1;
    }
    proof {
        assert(d.take(i - st) =~= d);
    }
    Some(acc as u8)
}

/// The digit character of a value below ten, as a string slice.
fn digit_str(d: u8) -> (s: &'static str)
    requires
        d < 10,
    ensures
        s@ == seq![digit_char(d as int)],
{
    proof {
        reveal_strlit("0");
        reveal_strlit("1");
        reveal_strlit("2");
        reveal_strlit("3");
        reveal_strlit("4");
        reveal_strlit("5");
        reveal_strlit("6");
        reveal_strlit("7");
        reveal_strlit("8");
        reveal_strlit("9");
    }
    let s: &'static str = match d {
        0 => "0",
        1 => "1",
        2 => "2",
        3 => "3",
        4 => "4",
        5 => "5",
        6 => "6",
        7 => "7",
        8 => "8",
        _ => "9",
    };
    proof {
        assert(s@ =~= seq![digit_char(d as int)]);
    }
    s
}

/// Append the decimal rendering of `b` to `out`.
fn octet_append(out: &mut String, b: u8)
    ensures
        final(out)@ == old(out)@ + dec_str(b as int),
    decreases b,
{
    if b < 10 {
        out.append(digit_str(b));
        proof {
            assert(out@ =~= old(out)@ + dec_str(b as int));
        }
    } else {
        octet_append(out, b / 10);
        out.append(digit_str(b % 10));
        proof {
            assert(dec_str(b as int) == dec_str(b as int / 10).push(digit_char(b as int % 10)));
            assert(out@ =~= old(out)@ + dec_str(b as int));
        }
    }
}

/// The dotted rendering of a list of octets.
fn octets_string(vals: &Vec<u8>) -> (r: String)
    ensures
        r@ == render_octets(vals@.map_values(|b: u8| b as int)),
{
    let ghost m = vals@.map_values(|b: u8| b as int);
    let mut out = String::new();
    proof {
        assert(m.take(0) =~= Seq::<int>::empty());
        assert(out@ =~= render_octets(m.take(0)));
    }
    let mut j: usize = 0;
    while j < vals.len()
        invariant
            j <= vals@.len(),
            m == vals@.map_values(|b: u8| b as int),
            out@ == render_octets(m.take(j as int)),
        decreases vals@.len() - j,
    {
        if j > 0 {
            out.append(".");
        }
        octet_append(&mut out, vals[j]);
        proof {
            reveal_strlit(".");
            assert(m.take(j + 1).drop_last() =~= m.take(j as int));
            assert(m.take(j + 1).last() == m[j as int]);
            assert(m[j as int] == vals@[j as int] as int);
            assert(out@ =~= render_octets(m.take(j + 1)));
        }
        j += 1;
    }
    proof {
        assert(m.take(vals@.len() as int) =~= m);
    }
    out
}

/// Octet-wise wrap-around addition of a key to a source address.
pub open spec fn added_octets(f: Seq<int>, k: Seq<int>) -> Seq<int> {
    Seq::new(f.len(), |i: int| wrap_add(f[i], k[i]))
}

/// Octet-wise wrap-around difference from a source to a destination.
pub open spec fn key_octets(f: Seq<int>, t: Seq<int>) -> Seq<int> {
    Seq::new(f.len(), |i: int| wrap_sub(t[i], f[i]))
}

/// What the destination endpoint answers: the rendering of the
/// octet-wise wrap-around sum, or nothing when either address is
/// malformed or the key has fewer octets than the source.
pub open spec fn dest_spec(from: Seq<char>, key: Seq<char>) -> Option<Seq<char>> {
    if valid_octets(from) && valid_octets(key) && octets_of(key).len() >= octets_of(from).len() {
        Some(render_octets(added_octets(octets_of(from), octets_of(key))))
    } else {
        None
    }
}

/// What the key-recovery endpoint answers: the rendering of the
/// octet-wise wrap-around difference, or nothing when either address is
/// malformed or the destination has fewer octets than the source.
pub open spec fn key_spec(from: Seq<char>, to: Seq<char>) -> Option<Seq<char>> {
    if valid_octets(from) && valid_octets(to) && octets_of(to).len() >= octets_of(from).len() {
        Some(render_octets(key_octets(octets_of(from), octets_of(to))))
    } else {
        None
    }
}

/// The destination address: each source octet plus the key octet at the
/// same index, with wrap-around.
pub fn dest_2(params: &Day2Params) -> (r: Option<String>)
    ensures
        params.key is None ==> r is None,
        params.key matches Some(k) ==> ((r is Some) == (dest_spec(params.from@, k@) is Some)),
        params.key matches Some(k) ==> (r matches Some(s) ==> Some(s@) == dest_spec(
            params.from@,
            k@,
        )),
{
    let key = match &params.key {
        Some(k) => k,
        None => {
            return None;
        },
    };
    let from_octets = match parse_octets(params.from.as_str()) {
        Some(v) => v,
        None => {
            return None;
        },
    };
    let key_vals = match parse_octets(key.as_str()) {
        Some(v) => v,
        None => {
            return None;
        },
    };
    if key_vals.len() < from_octets.len() {
        return None;
    }
    let ghost fm = octets_of(params.from@);
    let ghost km = octets_of(key@);
    let mut sums: Vec<u8> = Vec::new();
    let mut i: usize = 0;
    while i < from_octets.len()
        invariant
            i <= from_octets@.len(),
            from_octets@.map_values(|b: u8| b as int) == fm,
            key_vals@.map_values(|b: u8| b as int) == km,
            km.len() >= fm.len(),
            sums@.len() == i,
            forall|t: int| 0 <= t < i ==> (#[trigger] sums@[t]) as int == wrap_add(fm[t], km[t]),
        decreases from_octets@.len() - i,
    {
        let v = from_octets[i].wrapping_add(key_vals[i]);
        proof {
            assert(fm[i as int] == from_octets@[i as int] as int);
            assert(km[i as int] == key_vals@[i as int] as int);
        }
        sums.push(v);
        i += 1;
    }
    let r = octets_string(&sums);
    proof {
        assert(sums@.map_values(|b: u8| b as int) =~= added_octets(fm, km));
    }
    Some(r)
}

/// The key: each destination octet minus the source octet at the same
/// index, with wrap-around.
pub fn key_2(params: &Day2Params) -> (r: Option<String>)
    ensures
        params.to is None ==> r is None,
        params.to matches Some(t) ==> ((r is Some) == (key_spec(params.from@, t@) is Some)),
        params.to matches Some(t) ==> (r matches Some(s) ==> Some(s@) == key_spec(
            params.from@,
            t@,
        )),
{
    let to = match &params.to {
        Some(t) => t,
        None => {
            return None;
        },
    };
    let from_octets = match parse_octets(params.from.as_str()) {
        Some(v) => v,
        None => {
            return None;
        },
    };
    let to_vals = match parse_octets(to.as_str()) {
        Some(v) => v,
        None => {
            return None;
        },
    };
    if to_vals.len() < from_octets.len() {
        return None;
    }
    let ghost fm = octets_of(params.from@);
    let ghost tm = octets_of(to@);
    let mut diffs: Vec<u8> = Vec::new();
    let mut i: usize = 0;
    while i < from_octets.len()
        invariant
            i <= from_octets@.len(),
            from_octets@.map_values(|b: u8| b as int) == fm,
            to_vals@.map_values(|b: u8| b as int) == tm,
            tm.len() >= fm.len(),
            diffs@.len() == i,
            forall|t: int| 0 <= t < i ==> (#[trigger] diffs@[t]) as int == wrap_sub(tm[t], fm[t]),
        decreases from_octets@.len() - i,
    {
        let v = to_vals[i].wrapping_sub(from_octets[i]);
        proof {
            assert(fm[i as int] == from_octets@[i as int] as int);
            assert(tm[i as int] == to_vals@[i as int] as int);
        }
        diffs.push(v);
        i += 1;
    }
    let r = octets_string(&diffs);
    proof {
        assert(diffs@.map_values(|b: u8| b as int) =~= key_octets(fm, tm));
    }
    Some(r)
}

/// The 128-bit destination address: source XOR key, over the address
/// bits. The embedding layer converts addresses to and from bits.
pub fn dest_2_v6(from: u128, key: u128) -> (r: u128)
    ensures
        r == from ^ key,
{
    from ^ key
}

/// The 128-bit key: source XOR destination, over the address bits.
pub fn key_2_v6(from: u128, to: u128) -> (r: u128)
    ensures
        r == from ^ to,
{
    from ^ to
}

} // verus!
