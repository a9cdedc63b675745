use vstd::prelude::*;

verus! {

/// The character for a decimal digit `d` (`0 <= d < 10`).
pub open spec fn digit_char(d: nat) -> char {
    if d == 0 { '0' }
    else if d == 1 { '1' }
    else if d == 2 { '2' }
    else if d == 3 { '3' }
    else if d == 4 { '4' }
    else if d == 5 { '5' }
    else if d == 6 { '6' }
    else if d == 7 { '7' }
    else if d == 8 { '8' }
    else { '9' }
}

/// The decimal representation of `n`, most significant digit first, with no
/// leading zeros (`0` is written `"0"`).
pub open spec fn dec(n: nat) -> Seq<char>
    decreases n,
{
    if n < 10 {
        seq![digit_char(n)]
    } else {
        dec(n / 10).push(digit_char(n % 10))
    }
}

/// Appends the character of digit `d` to `s`.
fn push_digit(s: &mut String, d: u64)
    requires
        d < 10,
    ensures
        final(s)@ == old(s)@.push(digit_char(d as nat)),
{
    proof {
        reveal_strlit("0");
        reveal_strlit("1");
        reveal_strlit("2");
        reveal_strlit("3");
        reveal_strlit("4");
        reveal_strlit("5");
        reveal_strlit("6");
        reveal_strlit("7");
        reveal_strlit("8");
        reveal_strlit("9");
    }
    if d == 0 {
        s.append("0");
    } else if d == 1 {
        s.append("1");
    } else if d == 2 {
        s.append("2");
    } else if d == 3 {
        s.append("3");
    } else if d == 4 {
        s.append("4");
    } else if d == 5 {
        s.append("5");
    } else if d == 6 {
        s.append("6");
    } else if d == 7 {
        s.append("7");
    } else if d == 8 {
        s.append("8");
    } else {
        s.append("9");
    }
}

/// Appends the decimal representation of `n` to `s`.
pub fn append_decimal(s: &mut String, n: u64)
    ensures
        final(s)@ == old(s)@ + dec(n as nat),
    decreases n,
{
    if n >= 10 {
        append_decimal(s, n / 10);
    }
    push_digit(s, n % 10);
    proof {
        assert(old(s)@ + dec(n as nat) =~= final(s)@) by {
            if n >= 10 {
                assert(dec(n as nat) == dec((n / 10) as nat).push(digit_char((n % 10) as nat)));
            }
        }
    }
}


/// `s` preceded by zeros up to width `w` (unchanged when already as wide).
pub open spec fn pad_zeros(s: Seq<char>, w: nat) -> Seq<char> {
    if s.len() >= w {
        s
    } else {
        Seq::new((w - s.len()) as nat, |i: int| '0') + s
    }
}

/// The number of digits of small numbers.
proof fn lemma_dec_len_small(n: nat)
    ensures
        n < 10 ==> dec(n).len() == 1,
        10 <= n < 100 ==> dec(n).len() == 2,
        100 <= n < 1000 ==> dec(n).len() == 3,
        n >= 1000 ==> dec(n).len() >= 4,
    decreases n,
{
    if n >= 10 {
        lemma_dec_len_small(n / 10);
    }
}

/// Appends `n` in decimal, preceded by zeros up to width `w`.
pub fn append_padded(s: &mut String, n: u64, w: usize)
    requires
        1 <= w <= 4,
    ensures
        final(s)@ == old(s)@ + pad_zeros(dec(n as nat), w as nat),
{
    proof {
        reveal_strlit("0");
        lemma_dec_len_small(n as nat);
    }
    let ghost s0 = s@;
    let mut k: usize = 0;
    let zeros: usize = if w >= 4 && n < 10 {
        3
    } else if (w >= 4 && n < 100) || (w == 3 && n < 10) {
        2
    } else if (w >= 4 && n < 1000) || (w == 3 && n < 100) || (w == 2 && n < 10) {
        1
    } else {
        0
    };
    while k < zeros
        invariant
            k <= zeros,
            s@ == s0 + Seq::new(k as nat, |i: int| '0'),
        decreases zeros - k,
    {
        proof {
            reveal_strlit("0");
        }
        s.append("0");
        k = k + 1;
        proof {
            assert(s@ =~= s0 + Seq::new(k as nat, |i: int| '0'));
        }
    }
    append_decimal(s, n);
    proof {
        let d = dec(n as nat);
        if d.len() >= w {
            assert(zeros == 0);
            assert(s@ =~= s0 + d);
        } else {
            assert(zeros == w - d.len());
            assert(s@ =~= s0 + (Seq::new((w - d.len()) as nat, |i: int| '0') + d));
        }
    }
}

/// The numbers of `s` in decimal, separated by `", "`.
pub open spec fn join_numbers(s: Seq<u32>) -> Seq<char>
    decreases s.len(),
{
    if s.len() == 0 {
        Seq::empty()
    } else if s.len() == 1 {
        dec(s[0] as nat)
    } else {
        join_numbers(s.drop_last()) + ", "@ + dec(s.last() as nat)
    }
}

/// The debug form of a list of numbers: `[1, 2, 3]`.
pub open spec fn list_text(s: Seq<u32>) -> Seq<char> {
    "["@ + join_numbers(s) + "]"@
}

/// Appends the debug form of the list `items` to `s`.
pub fn append_list(s: &mut String, items: &Vec<u32>)
    ensures
        final(s)@ == old(s)@ + list_text(items@),
{
    let ghost s0 = s@;
    s.append("[");
    let mut i: usize = 0;
    while i < items.len()
        invariant
            i <= items@.len(),
            s@ == s0 + "["@ + join_numbers(items@.take(i as int)),
        decreases items@.len() - i,
    {
        let ghost before = s@;
        if i > 0 {
            s.append(", ");
        }
        append_decimal(s, items[i] as u64);
        proof {
            let t = items@.take(i + 1);
            assert(t.drop_last() =~= items@.take(i as int));
            if i > 0 {
                assert(join_numbers(t) == join_numbers(items@.take(i as int)) + ", "@ + dec(items@[i as int] as nat));
                assert(s@ =~= s0 + "["@ + join_numbers(t));
            } else {
                assert(join_numbers(t) == dec(items@[0] as nat));
                assert(join_numbers(items@.take(0)) =~= Seq::<char>::empty());
                assert(s@ =~= s0 + "["@ + join_numbers(t));
            }
        }
        i = i + 1;
    }
    s.append("]");
    proof {
        assert(items@.take(i as int) =~= items@);
        assert(s@ =~= s0 + list_text(items@));
    }
}

/// Inserts a comma before every group of three characters counted from the
/// right end of `s`.
pub open spec fn with_commas(s: Seq<char>) -> Seq<char>
    decreases s.len(),
{
    if s.len() <= 3 {
        s
    } else {
        with_commas(s.subrange(0, s.len() - 3)) + seq![','] + s.subrange(s.len() - 3, s.len() as int)
    }
}

/// The characters of `s` other than commas.
pub open spec fn strip_commas(s: Seq<char>) -> Seq<char> {
    s.filter(|c: char| c != ',')
}

/// The commas are only separators: removing them from the grouped form of a
/// string without commas gives the string back, so the digits of
/// `format_count(n)` are those of `n` in decimal.
pub proof fn law_commas_only_separate(s: Seq<char>)
    requires
        forall|i: int| 0 <= i < s.len() ==> s[i] != ',',
    ensures
        strip_commas(with_commas(s)) == s,
    decreases s.len(),
{
    broadcast use Seq::filter_distributes_over_add;

    let f = |c: char| c != ',';
    if s.len() <= 3 {
        lemma_filter_keeps_all(s, f);
    } else {
        let hi = s.subrange(0, s.len() - 3);
        let lo = s.subrange(s.len() - 3, s.len() as int);
        law_commas_only_separate(hi);
        lemma_filter_keeps_all(lo, f);
        reveal_with_fuel(Seq::filter, 2);
        assert(seq![','].filter(f) =~= Seq::<char>::empty()) by {
            assert(seq![','].drop_last() =~= Seq::<char>::empty());
        }
        assert(with_commas(hi).filter(f) + seq![','].filter(f) + lo.filter(f) =~= s);
        assert((with_commas(hi) + seq![',']).filter(f) == with_commas(hi).filter(f) + seq![','].filter(f));
    }
}

/// Decimal digits are never commas.
proof fn lemma_dec_no_commas(n: nat)
    ensures
        forall|i: int| 0 <= i < dec(n).len() ==> dec(n)[i] != ',',
    decreases n,
{
    if n >= 10 {
        lemma_dec_no_commas(n / 10);
        assert forall|i: int| 0 <= i < dec(n).len() implies dec(n)[i] != ',' by {
            if i < dec(n / 10).len() {
                assert(dec(n)[i] == dec(n / 10)[i]);
            }
        }
    }
}

/// Without its commas, the grouped form of `n` is `n` in decimal.
pub proof fn law_grouped_digits(n: nat)
    ensures
        strip_commas(with_commas(dec(n))) == dec(n),
{
    lemma_dec_no_commas(n);
    law_commas_only_separate(dec(n));
}

/// Filtering with a predicate that holds everywhere keeps everything.
proof fn lemma_filter_keeps_all(s: Seq<char>, f: spec_fn(char) -> bool)
    requires
        forall|i: int| 0 <= i < s.len() ==> f(s[i]),
    ensures
        s.filter(f) == s,
    decreases s.len(),
{
    reveal(Seq::filter);
    if s.len() > 0 {
        lemma_filter_keeps_all(s.drop_last(), f);
        assert(s.drop_last().push(s.last()) =~= s);
    }
}

/// `dec(n)` is never empty.
pub proof fn lemma_dec_nonempty(n: nat)
    ensures
        dec(n).len() >= 1,
    decreases n,
{
    if n >= 10 {
        lemma_dec_nonempty(n / 10);
    }
}

/// The decimal representation of `n >= 1000` ends with its three lowest
/// digits, preceded by the representation of `n / 1000`.
proof fn lemma_dec_split(n: nat)
    requires
        n >= 1000,
    ensures
        dec(n) == dec(n / 1000) + seq![
            digit_char((n / 100) % 10),
            digit_char((n / 10) % 10),
            digit_char(n % 10),
        ],
{
    vstd::arithmetic::div_mod::lemma_div_denominator(n as int, 10, 10);
    vstd::arithmetic::div_mod::lemma_div_denominator(n as int, 100, 10);
    assert(n / 10 / 10 == n / 100);
    assert(n / 100 / 10 == n / 1000);
    assert(dec(n) == dec(n / 10).push(digit_char(n % 10)));
    assert(dec(n / 10) == dec(n / 100).push(digit_char((n / 10) % 10)));
    assert(dec(n / 100) == dec(n / 1000).push(digit_char((n / 100) % 10)));
    assert(dec(n) =~= dec(n / 1000) + seq![
        digit_char((n / 100) % 10),
        digit_char((n / 10) % 10),
        digit_char(n % 10),
    ]);
}

fn append_grouped(s: &mut String, n: u64)
    ensures
        final(s)@ == old(s)@ + with_commas(dec(n as nat)),
    decreases n,
{
    proof {
        reveal_strlit(",");
    }
    if n < 1000 {
        append_decimal(s, n);
        proof {
            assert(dec(n as nat).len() <= 3) by {
                if n >= 100 {
                    assert(dec(n as nat) == dec((n / 10) as nat).push(digit_char((n % 10) as nat)));
                    assert(dec((n / 10) as nat) == dec((n / 100) as nat).push(digit_char(((n / 10) % 10) as nat)));
                } else if n >= 10 {
                    assert(dec(n as nat) == dec((n / 10) as nat).push(digit_char((n % 10) as nat)));
                }
            }
        }
    } else {
        append_grouped(s, n / 1000);
        s.append(",");
        push_digit(s, (n / 100) % 10);
        push_digit(s, (n / 10) % 10);
        push_digit(s, n % 10);
        proof {
            let hi = dec((n / 1000) as nat);
            let lo = seq![
                digit_char(((n / 100) % 10) as nat),
                digit_char(((n / 10) % 10) as nat),
                digit_char((n % 10) as nat),
            ];
            lemma_dec_split(n as nat);
            lemma_dec_nonempty((n / 1000) as nat);
            let d = dec(n as nat);
            assert(d == hi + lo);
            assert(d.subrange(0, d.len() - 3) =~= hi);
            assert(d.subrange(d.len() - 3, d.len() as int) =~= lo);
            assert(final(s)@ =~= old(s)@ + with_commas(d));
        }
    }
}

/// Formats `n` in decimal with a comma between each group of three digits,
/// counted from the right (`1478234` becomes `"1,478,234"`).
pub fn format_count(n: u64) -> (r: String)
    ensures
        r@ == with_commas(dec(n as nat)),
{
    let mut s = String::new();
    append_grouped(&mut s, n);
    proof {
        assert(s@ =~= with_commas(dec(n as nat)));
    }
    s
}

/// Formats `n` in decimal.
pub fn decimal_string(n: u64) -> (r: String)
    ensures
        r@ == dec(n as nat),
{
    let mut s = String::new();
    append_decimal(&mut s, n);
    proof {
        assert(s@ =~= dec(n as nat));
    }
    s
}

} // verus!
