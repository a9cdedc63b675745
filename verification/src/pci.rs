use vstd::prelude::*;

verus! {

/// A PCI address: domain, bus, device and function.
#[derive(Debug, Clone, Copy, PartialEq, Eq, Structural)]
pub struct PciAddress {
    pub domain: u32,
    pub bus: u8,
    pub dev: u8,
    pub func: u8,
}

/// The value of a hexadecimal digit, either case.
pub open spec fn hex_digit(c: char) -> Option<nat> {
    if '0' <= c && c <= '9' {
        Some((c as int - '0' as int) as nat)
    } else if 'a' <= c && c <= 'f' {
        Some((c as int - 'a' as int + 10) as nat)
    } else if 'A' <= c && c <= 'F' {
        Some((c as int - 'A' as int + 10) as nat)
    } else {
        None
    }
}

/// The value of a string of hexadecimal digits (`None` when a character is
/// not one; the empty string is 0).
pub open spec fn hex_digits_value(s: Seq<char>) -> Option<nat>
    decreases s.len(),
{
    if s.len() == 0 {
        Some(0)
    } else {
        match (hex_digits_value(s.drop_last()), hex_digit(s.last())) {
            (Some(v), Some(d)) => Some(v * 16 + d),
            _ => None,
        }
    }
}

/// A hexadecimal number as the standard library reads one: an optional
/// `+`, then at least one digit, with a value of at most `max`.
pub open spec fn parse_hex(s: Seq<char>, max: nat) -> Option<nat> {
    let digits = if s.len() > 0 && s[0] == '+' { s.drop_first() } else { s };
    if digits.len() == 0 {
        None
    } else {
        match hex_digits_value(digits) {
            Some(v) => if v <= max { Some(v) } else { None },
            None => None,
        }
    }
}

/// The pieces of `s` between occurrences of `c` (an empty string gives one
/// empty piece).
pub open spec fn split_on(s: Seq<char>, c: char) -> Seq<Seq<char>>
    decreases s.len(),
{
    if s.len() == 0 {
        seq![Seq::empty()]
    } else {
        let rest = split_on(s.drop_last(), c);
        if s.last() == c {
            rest.push(Seq::empty())
        } else {
            rest.update(rest.len() - 1, rest.last().push(s.last()))
        }
    }
}

/// The address written `domain:bus:dev.func` in hexadecimal, if `s` is one.
pub open spec fn pci_spec(s: Seq<char>) -> Option<PciAddress> {
    let parts = split_on(s, ':');
    if parts.len() != 3 {
        None
    } else {
        let df = split_on(parts[2], '.');
        match (parse_hex(parts[0], u32::MAX as nat), parse_hex(parts[1], 255)) {
            (Some(domain), Some(bus)) => if df.len() != 2 {
                None
            } else {
                match (parse_hex(df[0], 255), parse_hex(df[1], 255)) {
                    (Some(dev), Some(func)) => Some(
                        PciAddress { domain: domain as u32, bus: bus as u8, dev: dev as u8, func: func as u8 },
                    ),
                    _ => None,
                }
            },
            _ => None,
        }
    }
}

/// `split_on` never gives an empty list.
proof fn lemma_split_nonempty(s: Seq<char>, c: char)
    ensures
        split_on(s, c).len() >= 1,
    decreases s.len(),
{
    if s.len() > 0 {
        lemma_split_nonempty(s.drop_last(), c);
    }
}

/// A value that has passed `max` stays past it as digits are added.
proof fn lemma_hex_monotone(s: Seq<char>, k: int, max: nat)
    requires
        0 <= k <= s.len(),
        hex_digits_value(s.take(k)) matches Some(v) && v > max,
    ensures
        hex_digits_value(s) matches Some(w) ==> w > max,
    decreases s.len() - k,
{
    if k < s.len() {
        let t = s.take(k + 1);
        assert(t.drop_last() =~= s.take(k));
        match hex_digits_value(t) {
            Some(w) => {
                lemma_hex_monotone(s, k + 1, max);
            },
            None => {
                lemma_hex_none_prefix(s, k + 1);
            },
        }
    } else {
        assert(s.take(k) =~= s);
    }
}

/// A string with an invalid prefix is invalid.
proof fn lemma_hex_none_prefix(s: Seq<char>, k: int)
    requires
        0 <= k <= s.len(),
        hex_digits_value(s.take(k)) is None,
    ensures
        hex_digits_value(s) is None,
    decreases s.len() - k,
{
    if k < s.len() {
        let t = s.take(k + 1);
        assert(t.drop_last() =~= s.take(k));
        lemma_hex_none_prefix(s, k + 1);
    } else {
        assert(s.take(k) =~= s);
    }
}

/// The value of a hexadecimal digit character.
fn hex_digit_exec(c: char) -> (r: Option<u64>)
    ensures
        match hex_digit(c) {
            Some(d) => r == Some(d as u64),
            None => r is None,
        },
{
    if '0' <= c && c <= '9' {
        Some((c as u32 - '0' as u32) as u64)
    } else if 'a' <= c && c <= 'f' {
        Some((c as u32 - 'a' as u32 + 10) as u64)
    } else if 'A' <= c && c <= 'F' {
        Some((c as u32 - 'A' as u32 + 10) as u64)
    } else {
        None
    }
}

/// Reads `s` as a hexadecimal number of at most `max` (see `parse_hex`).
pub fn parse_hex_exec(s: &[char], max: u64) -> (r: Option<u64>)
    ensures
        match parse_hex(s@, max as nat) {
            Some(v) => r == Some(v as u64),
            None => r is None,
        },
{
    let mut i: usize = 0;
    if s.len() > 0 && s[0] == '+' {
        i = 1;
    }
    let ghost digits = if s@.len() > 0 && s@[0] == '+' { s@.drop_first() } else { s@ };
    if i == s.len() {
        return None;
    }
    let start = i;
    let mut acc: u64 = 0;
    proof {
        assert(digits =~= s@.skip(start as int));
        assert(digits.take(0) =~= Seq::<char>::empty());
    }
    while i < s.len()
        invariant
            start <= i <= s@.len(),
            start < s@.len(),
            digits == s@.skip(start as int),
            digits == (if s@.len() > 0 && s@[0] == '+' { s@.drop_first() } else { s@ }),
            hex_digits_value(digits.take(i - start)) == Some(acc as nat),
            acc <= max,
        decreases s@.len() - i,
    {
        let ghost t = digits.take(i - start + 1);
        proof {
            assert(t.drop_last() =~= digits.take(i - start));
            assert(t.last() == s@[i as int]);
        }
        match hex_digit_exec(s[i]) {
            None => {
                proof {
                    assert(hex_digits_value(t) is None);
                    lemma_hex_none_prefix(digits, i - start + 1);
                }
                return None;
            },
            Some(d) => {
                if d > max || acc > (max - d) / 16 {
                    proof {
                        assert(acc * 16 + d > max) by (nonlinear_arith)
                            requires d > max || acc > (max - d) / 16, d < 16, acc >= 0;
                        lemma_hex_monotone(digits, i - start + 1, max as nat);
                    }
                    return None;
                }
                proof {
                    assert(acc * 16 + d <= max) by (nonlinear_arith)
                        requires acc <= (max - d) / 16, d <= max;
                }
                acc = acc * 16 + d;
            },
        }
        i = i + 1;
    }
    proof {
        assert(digits.take(i - start) =~= digits);
    }
    Some(acc)
}

/// The pieces of `s` between occurrences of `c` (see `split_on`).
fn split_exec(s: &[char], c: char) -> (r: Vec<Vec<char>>)
    ensures
        r@.map_values(|p: Vec<char>| p@) == split_on(s@, c),
{
    let mut r: Vec<Vec<char>> = Vec::new();
    r.push(Vec::new());
    let mut i: usize = 0;
    proof {
        assert(s@.take(0) =~= Seq::<char>::empty());
        assert(r@.map_values(|p: Vec<char>| p@) =~= split_on(s@.take(0), c));
    }
    while i < s.len()
        invariant
            i <= s@.len(),
            r@.len() >= 1,
            r@.map_values(|p: Vec<char>| p@) == split_on(s@.take(i as int), c),
        decreases s@.len() - i,
    {
        let ghost t = s@.take(i + 1);
        let ghost before = r@.map_values(|p: Vec<char>| p@);
        proof {
            assert(t.drop_last() =~= s@.take(i as int));
            assert(t.last() == s@[i as int]);
        }
        if s[i] == c {
            r.push(Vec::new());
            proof {
                assert(r@.map_values(|p: Vec<char>| p@) =~= before.push(Seq::empty()));
            }
        } else {
            let last = r.len() - 1;
            let mut piece = r.pop().unwrap();
            piece.push(s[i]);
            r.push(piece);
            proof {
                assert(r@.map_values(|p: Vec<char>| p@) =~= before.update(last as int, before.last().push(s@[i as int])));
            }
        }
        i = i + 1;
    }
    proof {
        assert(s@.take(i as int) =~= s@);
    }
    r
}

/// The characters of `s`.
fn chars_of(s: &str) -> (r: Vec<char>)
    ensures
        r@ == s@,
{
    let n = s.unicode_len();
    let mut r: Vec<char> = Vec::new();
    let mut i: usize = 0;
    while i < n
        invariant
            n == s@.len(),
            i <= n,
            r@ == s@.take(i as int),
        decreases n - i,
    {
        r.push(s.get_char(i));
        i = i + 1;
        proof {
            assert(r@ =~= s@.take(i as int));
        }
    }
    proof {
        assert(s@.take(i as int) =~= s@);
    }
    r
}

/// Reads a PCI address written `domain:bus:dev.func` in hexadecimal, such
/// as `0000:03:00.0` (see `pci_spec`).
pub fn parse_pci_addr(s: &str) -> (r: Option<PciAddress>)
    ensures
        r == pci_spec(s@),
{
    let cs = chars_of(s);
    let parts = split_exec(cs.as_slice(), ':');
    proof {
        assert(parts@.len() == split_on(s@, ':').len());
    }
    if parts.len() != 3 {
        return None;
    }
    proof {
        assert(parts@[0]@ == split_on(s@, ':')[0]);
        assert(parts@[1]@ == split_on(s@, ':')[1]);
        assert(parts@[2]@ == split_on(s@, ':')[2]);
    }
    let domain = match parse_hex_exec(parts[0].as_slice(), 0xffff_ffff) {
        Some(v) => v,
        None => {
            return None;
        },
    };
    let bus = match parse_hex_exec(parts[1].as_slice(), 0xff) {
        Some(v) => v,
        None => {
            return None;
        },
    };
    let df = split_exec(parts[2].as_slice(), '.');
    proof {
        assert(df@.len() == split_on(parts@[2]@, '.').len());
    }
    if df.len() != 2 {
        return None;
    }
    proof {
        assert(df@[0]@ == split_on(parts@[2]@, '.')[0]);
        assert(df@[1]@ == split_on(parts@[2]@, '.')[1]);
    }
    let dev = match parse_hex_exec(df[0].as_slice(), 0xff) {
        Some(v) => v,
        None => {
            return None;
        },
    };
    let func = match parse_hex_exec(df[1].as_slice(), 0xff) {
        Some(v) => v,
        None => {
            return None;
        },
    };
    Some(PciAddress { domain: domain as u32, bus: bus as u8, dev: dev as u8, func: func as u8 })
}

} // verus!
