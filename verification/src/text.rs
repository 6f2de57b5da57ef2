//! Text building blocks: numerals, splitting and searching.
use vstd::prelude::*;
use vstd::string::*;
use vstd::arithmetic::div_mod::{
    lemma_div_decreases, lemma_fundamental_div_mod, lemma_mod_bound, lemma_small_mod,
};

verus! {

/// The character of a digit: `0` to `9`, then `A` to `F`.
pub open spec fn digit(d: nat) -> char {
    if d < 10 {
        (48 + d) as char
    } else {
        (55 + d) as char
    }
}

/// The numeral of `n` in `base`, most significant digit first and without leading zeros.
pub open spec fn numeral(n: nat, base: nat) -> Seq<char>
    decreases n,
{
    if n < base || base < 2 {
        seq![digit(n)]
    } else {
        proof {
            lemma_div_decreases(n as int, base as int);
        }
        numeral(n / base, base).push(digit(n % base))
    }
}

/// The decimal numeral of `n`.
pub open spec fn decimal(n: nat) -> Seq<char> {
    numeral(n, 10)
}

fn digit_text(d: u8) -> (r: &'static str)
    requires
        d < 16,
    ensures
        r@ == seq![digit(d as nat)],
{
    proof {
        reveal_strlit("0");
        reveal_strlit("1");
        reveal_strlit("2");
        reveal_strlit("3");
        reveal_strlit("4");
        reveal_strlit("5");
        reveal_strlit("6");
        reveal_strlit("7");
        reveal_strlit("8");
        reveal_strlit("9");
        reveal_strlit("A");
        reveal_strlit("B");
        reveal_strlit("C");
        reveal_strlit("D");
        reveal_strlit("E");
        reveal_strlit("F");
    }
    match d {
        0 => "0",
        1 => "1",
        2 => "2",
        3 => "3",
        4 => "4",
        5 => "5",
        6 => "6",
        7 => "7",
        8 => "8",
        9 => "9",
        10 => "A",
        11 => "B",
        12 => "C",
        13 => "D",
        14 => "E",
        _ => "F",
    }
}

/// Appends the numeral of `n` in `base` to `out`.
pub fn push_numeral(out: &mut String, n: u128, base: u128)
    requires
        2 <= base <= 16,
    ensures
        final(out)@ == old(out)@ + numeral(n as nat, base as nat),
    decreases n,
{
    proof {
        if n >= base {
            lemma_div_decreases(n as int, base as int);
        } else {
            lemma_small_mod(n as nat, base as nat);
        }
        lemma_mod_bound(n as int, base as int);
    }
    if n >= base {
        push_numeral(out, n / base, base);
    }
    let d: u8 = (n % base) as u8;
    out.append(digit_text(d));
}

/// Appends the decimal numeral of `n` to `out`.
pub fn push_decimal(out: &mut String, n: u128)
    ensures
        final(out)@ == old(out)@ + decimal(n as nat),
{
    push_numeral(out, n, 10);
}

/// The value of a digit character.
pub open spec fn digit_value(c: char) -> nat {
    if c as nat <= 57 {
        (c as nat - 48) as nat
    } else {
        (c as nat - 55) as nat
    }
}

/// The number that a numeral in `base` stands for.
pub open spec fn numeral_value(s: Seq<char>, base: nat) -> nat
    decreases s.len(),
{
    if s.len() == 0 {
        0
    } else {
        numeral_value(s.drop_last(), base) * base + digit_value(s.last())
    }
}

/// A numeral reads back as the number it was written for.
pub proof fn numeral_reads_back(n: nat, base: nat)
    requires
        2 <= base <= 16,
    ensures
        numeral_value(numeral(n, base), base) == n,
    decreases n,
{
    let s = numeral(n, base);
    if n < base {
        assert(s.drop_last() =~= Seq::<char>::empty());
        assert(numeral_value(s.drop_last(), base) == 0);
        assert(0 * base == 0) by (nonlinear_arith);
    } else {
        lemma_div_decreases(n as int, base as int);
        lemma_mod_bound(n as int, base as int);
        lemma_fundamental_div_mod(n as int, base as int);
        numeral_reads_back(n / base, base);
        assert(s.drop_last() =~= numeral(n / base, base));
        assert((n / base) * base == base * (n / base)) by (nonlinear_arith);
    }
}

/// A numeral is made of digits only.
pub proof fn numeral_is_digits(n: nat, base: nat)
    requires
        2 <= base <= 16,
    ensures
        numeral(n, base).len() > 0,
        forall|i: int|
            0 <= i < numeral(n, base).len() ==> {
                let c = #[trigger] numeral(n, base)[i];
                ('0' <= c <= '9') || ('A' <= c <= 'F')
            },
        base <= 10 ==> forall|i: int|
            0 <= i < numeral(n, base).len() ==> '0' <= #[trigger] numeral(n, base)[i] <= '9',
    decreases n,
{
    if n >= base {
        lemma_div_decreases(n as int, base as int);
        lemma_mod_bound(n as int, base as int);
        numeral_is_digits(n / base, base);
    }
}

/// Different numbers have different numerals.
pub proof fn numerals_differ(a: nat, b: nat, base: nat)
    requires
        2 <= base <= 16,
        numeral(a, base) == numeral(b, base),
    ensures
        a == b,
{
    numeral_reads_back(a, base);
    numeral_reads_back(b, base);
}

/// Texts that begin and end alike and are equal are equal in between.
pub proof fn same_middle(head: Seq<char>, a: Seq<char>, b: Seq<char>, tail: Seq<char>)
    requires
        head + a + tail == head + b + tail,
    ensures
        a == b,
{
    let (s, t) = (head + a + tail, head + b + tail);
    assert(s.len() == t.len());
    assert forall|i: int| 0 <= i < a.len() implies a[i] == b[i] by {
        assert(s[head.len() + i] == t[head.len() + i]);
    }
    assert(a =~= b);
}

/// The pieces of `s` between the occurrences of `sep`, in order. There is always one more
/// piece than there are separators.
pub open spec fn split(s: Seq<char>, sep: char) -> Seq<Seq<char>>
    decreases s.len(),
{
    if s.len() == 0 {
        seq![Seq::<char>::empty()]
    } else {
        let pieces = split(s.drop_last(), sep);
        if s.last() == sep {
            pieces.push(Seq::<char>::empty())
        } else {
            pieces.drop_last().push(pieces.last().push(s.last()))
        }
    }
}

/// `pieces` written one after the other with `sep` between them.
pub open spec fn join(pieces: Seq<Seq<char>>, sep: char) -> Seq<char>
    decreases pieces.len(),
{
    if pieces.len() == 0 {
        Seq::<char>::empty()
    } else if pieces.len() == 1 {
        pieces[0]
    } else {
        join(pieces.drop_last(), sep).push(sep) + pieces.last()
    }
}

/// Splitting never returns an empty list, no piece holds the separator, and joining the
/// pieces gives the text back.
pub proof fn split_then_join(s: Seq<char>, sep: char)
    ensures
        split(s, sep).len() > 0,
        join(split(s, sep), sep) == s,
        forall|i: int| 0 <= i < split(s, sep).len() ==> !(#[trigger] split(s, sep)[i]).contains(sep),
    decreases s.len(),
{
    let pieces = split(s, sep);
    if s.len() == 0 {
        assert(join(pieces, sep) =~= s);
    } else {
        let before = split(s.drop_last(), sep);
        split_then_join(s.drop_last(), sep);
        if s.last() == sep {
            assert(pieces.drop_last() =~= before);
            assert(join(pieces, sep) =~= s);
        } else {
            assert(pieces.drop_last() =~= before.drop_last());
            assert(join(pieces, sep) =~= join(before, sep).push(s.last()));
            assert(join(pieces, sep) =~= s);
            assert forall|i: int| 0 <= i < pieces.len() implies !(#[trigger] pieces[i]).contains(
                sep,
            ) by {
                if i < before.len() - 1 {
                    assert(pieces[i] == before[i]);
                } else {
                    let last = before.last();
                    assert(!before[before.len() - 1].contains(sep));
                    assert(pieces[i] == last.push(s.last()));
                    if pieces[i].contains(sep) {
                        let k = choose|k: int| 0 <= k < pieces[i].len() && pieces[i][k] == sep;
                        assert(last[k] == sep);
                    }
                }
            }
        }
    }
}

/// Whether `pattern` occurs in `s`.
pub open spec fn occurs(pattern: Seq<char>, s: Seq<char>) -> bool {
    exists|i: int| #[trigger] occurs_at(pattern, s, i)
}

/// Whether `pattern` occurs in `s` at position `i`.
pub open spec fn occurs_at(pattern: Seq<char>, s: Seq<char>, i: int) -> bool {
    &&& 0 <= i
    &&& i + pattern.len() <= s.len()
    &&& s.subrange(i, i + pattern.len()) == pattern
}

/// The characters of `s`.
pub fn chars_of(s: &str) -> (r: Vec<char>)
    ensures
        r@ == s@,
{
    let mut v: Vec<char> = Vec::new();
    for c in it: s.chars()
        invariant
            it.seq() == s@,
            v@ == it.seq().take(it.index()),
    {
        v.push(c);
    }
    assert(v@ =~= s@);
    v
}

/// The texts that a list of strings holds.
pub open spec fn views(v: Seq<String>) -> Seq<Seq<char>> {
    Seq::new(v.len(), |i: int| v[i]@)
}

/// Splits `s` at each occurrence of `sep`.
pub fn split_text(s: &str, sep: char) -> (r: Vec<String>)
    ensures
        views(r@) == split(s@, sep),
{
    let chars = chars_of(s);
    let mut pieces: Vec<String> = Vec::new();
    let mut start: usize = 0;
    let mut i: usize = 0;
    assert(s@.subrange(0, 0) =~= Seq::<char>::empty());
    assert(views(pieces@).push(s@.subrange(0, 0)) =~= split(s@.take(0), sep));
    while i < chars.len()
        invariant
            chars@ == s@,
            start <= i <= chars.len(),
            views(pieces@).push(s@.subrange(start as int, i as int)) == split(
                s@.take(i as int),
                sep,
            ),
        decreases chars.len() - i,
    {
        let ghost before = views(pieces@);
        assert(s@.take(i + 1).drop_last() =~= s@.take(i as int));
        assert(s@.take(i + 1).last() == s@[i as int]);
        if chars[i] == sep {
            let piece = s.substring_char(start, i);
            pieces.push(piece.to_owned());
            start = i + 1;
            assert(views(pieces@) =~= before.push(piece@));
            assert(s@.subrange(start as int, start as int) =~= Seq::<char>::empty());
        } else {
            assert(s@.subrange(start as int, i + 1) =~= s@.subrange(start as int, i as int).push(
                s@[i as int],
            ));
            assert(before.push(s@.subrange(start as int, i as int)).drop_last() =~= before);
        }
        i = i + 1;
        assert(views(pieces@).push(s@.subrange(start as int, i as int)) =~= split(
            s@.take(i as int),
            sep,
        ));
    }
    let ghost before = views(pieces@);
    assert(s@.take(chars.len() as int) =~= s@);
    let last = s.substring_char(start, chars.len());
    pieces.push(last.to_owned());
    assert(views(pieces@) =~= before.push(last@));
    pieces
}

/// Whether `pattern` occurs in `s`.
pub fn contains_text(s: &str, pattern: &str) -> (r: bool)
    ensures
        r == occurs(pattern@, s@),
{
    let text = chars_of(s);
    let wanted = chars_of(pattern);
    if wanted.len() > text.len() {
        return false;
    }
    let last: usize = text.len() - wanted.len();
    let mut i: usize = 0;
    loop
        invariant
            text@ == s@,
            wanted@ == pattern@,
            i <= last == text.len() - wanted.len(),
            forall|k: int| 0 <= k < i ==> !#[trigger] occurs_at(pattern@, s@, k),
        decreases last - i,
    {
        let mut j: usize = 0;
        while j < wanted.len() && text[i + j] == wanted[j]
            invariant
                text@ == s@,
                wanted@ == pattern@,
                i <= last == text.len() - wanted.len(),
                j <= wanted.len(),
                forall|k: int| 0 <= k < j ==> s@[i + k] == #[trigger] pattern@[k],
            decreases wanted.len() - j,
        {
            j = j + 1;
        }
        if j == wanted.len() {
            assert(s@.subrange(i as int, i + pattern@.len()) =~= pattern@);
            assert(occurs_at(pattern@, s@, i as int));
            return true;
        }
        assert(!occurs_at(pattern@, s@, i as int)) by {
            if occurs_at(pattern@, s@, i as int) {
                assert(s@.subrange(i as int, i + pattern@.len())[j as int] == s@[i + j]);
            }
        }
        if i == last {
            return false;
        }
        i = i + 1;
    }
}

/// Whether two texts are the same.
pub fn same_text(a: &str, b: &str) -> (r: bool)
    ensures
        r == (a@ == b@),
{
    a.to_owned() == b.to_owned()
}

/// Whether `s` begins with `c`.
pub fn begins_with(s: &str, c: char) -> (r: bool)
    ensures
        r == (s@.len() > 0 && s@[0] == c),
{
    !s.is_empty() && s.get_char(0) == c
}

// ---------------------------------------------------------------------------
// Laws
// ---------------------------------------------------------------------------
/// Each digit is written with its character out of `0` to `9` and `A` to `F`, and that
/// character has the value of the digit.
pub proof fn digits_are_the_usual_ones(d: nat, base: nat)
    requires
        d < base <= 16,
    ensures
        numeral(d, base) == seq!["0123456789ABCDEF"@[d as int]],
        digit_value("0123456789ABCDEF"@[d as int]) == d,
{
    reveal_strlit("0123456789ABCDEF");
    assert(digit(d) == "0123456789ABCDEF"@[d as int]) by {
        reveal_strlit("0123456789ABCDEF");
        if d == 0 {
        } else if d == 1 {
        } else if d == 2 {
        } else if d == 3 {
        } else if d == 4 {
        } else if d == 5 {
        } else if d == 6 {
        } else if d == 7 {
        } else if d == 8 {
        } else if d == 9 {
        } else if d == 10 {
        } else if d == 11 {
        } else if d == 12 {
        } else if d == 13 {
        } else if d == 14 {
        } else {
            assert(d == 15);
        }
    }
}

/// A further digit is written behind those of the number before it.
pub proof fn further_digit_comes_last(n: nat, d: nat, base: nat)
    requires
        0 < n,
        d < base,
        2 <= base <= 16,
    ensures
        numeral(n * base + d, base) == numeral(n, base) + numeral(d, base),
{
    let m = n * base + d;
    assert(m >= base) by (nonlinear_arith)
        requires
            m == n * base + d,
            n > 0,
    ;
    vstd::arithmetic::div_mod::lemma_fundamental_div_mod_converse(
        m as int,
        base as int,
        n as int,
        d as int,
    );
    assert(m / base == n && m % base == d);
    assert(numeral(m, base) =~= numeral(n, base) + numeral(d, base));
}

/// A numeral has no leading zeros: only that of zero begins with one, and it is nothing else.
pub proof fn numeral_has_no_leading_zero(n: nat, base: nat)
    requires
        2 <= base <= 16,
    ensures
        numeral(n, base).len() > 0,
        numeral(n, base)[0] == '0' <==> n == 0,
        n == 0 ==> numeral(n, base).len() == 1,
    decreases n,
{
    if n >= base {
        lemma_div_decreases(n as int, base as int);
        assert(n / base > 0) by (nonlinear_arith)
            requires
                n >= base,
                base >= 2,
        ;
        numeral_has_no_leading_zero(n / base, base);
    } else {
        digits_are_the_usual_ones(n, base);
        reveal_strlit("0123456789ABCDEF");
    }
}

/// A decimal numeral is made of the digits `0` to `9`, has no leading zero and reads back as the
/// number it was written for.
pub proof fn decimal_reads_back(n: nat)
    ensures
        decimal(n).len() > 0,
        numeral_value(decimal(n), 10) == n,
        decimal(n)[0] == '0' ==> decimal(n).len() == 1,
        forall|i: int| 0 <= i < decimal(n).len() ==> '0' <= #[trigger] decimal(n)[i] <= '9',
{
    numeral_is_digits(n, 10);
    numeral_reads_back(n, 10);
    numeral_has_no_leading_zero(n, 10);
}

/// What is appended for a number is made of digits, has no leading zero and reads back as the
/// number; what was there before stays.
pub proof fn appended_numeral_reads_back(out: &mut String, n: u128, base: u128)
    requires
        2 <= base <= 16,
        call_ensures(push_numeral, (out, n, base), ()),
    ensures
        ({
            let len = old(out)@.len() as int;
            let added = final(out)@.skip(len);
            &&& final(out)@.len() > len
            &&& final(out)@.take(len) == old(out)@
            &&& numeral_value(added, base as nat) == n
            &&& added[0] == '0' <==> n == 0
            &&& n == 0 ==> added.len() == 1
            &&& forall|i: int|
                0 <= i < added.len() ==> ('0' <= #[trigger] added[i] <= '9') || ('A' <= added[i]
                    <= 'F')
        }),
{
    let len = old(out)@.len() as int;
    numeral_is_digits(n as nat, base as nat);
    numeral_reads_back(n as nat, base as nat);
    numeral_has_no_leading_zero(n as nat, base as nat);
    assert(final(out)@.skip(len) =~= numeral(n as nat, base as nat));
    assert(final(out)@.take(len) =~= old(out)@);
}

/// A text without the separator is a single piece.
pub proof fn text_without_separator_is_one_piece(s: Seq<char>, sep: char)
    requires
        !s.contains(sep),
    ensures
        split(s, sep) == seq![s],
    decreases s.len(),
{
    if s.len() > 0 {
        let shorter = s.drop_last();
        assert forall|x: char| shorter.contains(x) implies s.contains(x) by {
            let k = choose|k: int| 0 <= k < shorter.len() && shorter[k] == x;
            assert(s[k] == x);
        }
        text_without_separator_is_one_piece(shorter, sep);
        assert(s.contains(s.last()));
        assert(shorter.push(s.last()) =~= s);
    } else {
        assert(s =~= Seq::<char>::empty());
    }
    assert(split(s, sep) =~= seq![s]);
}

/// What follows the last separator is the last piece; what comes before it is cut up on its
/// own.
pub proof fn last_separator_cuts_off_the_last_piece(a: Seq<char>, b: Seq<char>, sep: char)
    requires
        !b.contains(sep),
    ensures
        split(a + seq![sep] + b, sep) == split(a, sep).push(b),
    decreases b.len(),
{
    let s = a + seq![sep] + b;
    if b.len() == 0 {
        assert(s.drop_last() =~= a);
        assert(b =~= Seq::<char>::empty());
        assert(split(s, sep) =~= split(a, sep).push(b));
    } else {
        let shorter = b.drop_last();
        assert forall|x: char| shorter.contains(x) implies b.contains(x) by {
            let k = choose|k: int| 0 <= k < shorter.len() && shorter[k] == x;
            assert(b[k] == x);
        }
        last_separator_cuts_off_the_last_piece(a, shorter, sep);
        assert(b.contains(b.last()));
        assert(s.drop_last() =~= a + seq![sep] + shorter);
        assert(shorter.push(b.last()) =~= b);
        assert(split(s, sep) =~= split(a, sep).push(b));
    }
}

/// Pieces that do not hold the separator come back as they were when their joined text is
/// split.
pub proof fn join_then_split(pieces: Seq<Seq<char>>, sep: char)
    requires
        pieces.len() > 0,
        forall|i: int| 0 <= i < pieces.len() ==> !(#[trigger] pieces[i]).contains(sep),
    ensures
        split(join(pieces, sep), sep) == pieces,
    decreases pieces.len(),
{
    if pieces.len() == 1 {
        text_without_separator_is_one_piece(pieces[0], sep);
        assert(split(join(pieces, sep), sep) =~= pieces);
    } else {
        let before = pieces.drop_last();
        assert forall|i: int| 0 <= i < before.len() implies !(#[trigger] before[i]).contains(
            sep,
        ) by {
            assert(before[i] == pieces[i]);
        }
        join_then_split(before, sep);
        assert(!pieces[pieces.len() - 1].contains(sep));
        last_separator_cuts_off_the_last_piece(join(before, sep), pieces.last(), sep);
        assert(join(pieces, sep) =~= join(before, sep) + seq![sep] + pieces.last());
        assert(split(join(pieces, sep), sep) =~= pieces);
    }
}

/// A text is cut up into pieces that do not hold the separator, in order and with nothing left
/// out: written one after the other with the separator in between they are the text.
pub proof fn text_is_cut_at_every_separator(s: &str, sep: char, r: Vec<String>)
    requires
        call_ensures(split_text, (s, sep), r),
    ensures
        r@.len() > 0,
        forall|i: int| 0 <= i < r@.len() ==> !(#[trigger] r@[i])@.contains(sep),
        join(Seq::new(r@.len(), |i: int| r@[i]@), sep) == s@,
{
    split_then_join(s@, sep);
    assert(views(r@) =~= Seq::new(r@.len(), |i: int| r@[i]@));
    assert forall|i: int| 0 <= i < r@.len() implies !(#[trigger] r@[i])@.contains(sep) by {
        assert(views(r@)[i] == r@[i]@);
    }
}

/// A pattern is found exactly where its characters stand in the text, one after the other.
pub proof fn pattern_is_found_wherever_it_stands(s: &str, pattern: &str, r: bool)
    requires
        call_ensures(contains_text, (s, pattern), r),
    ensures
        r <==> exists|i: int|
            0 <= i <= s@.len() - pattern@.len() && (#[trigger] s@.skip(i)).len() >= pattern@.len()
                && forall|k: int|
                0 <= k < pattern@.len() ==> s@[i + k] == #[trigger] pattern@[k],
{
    if r {
        let i = choose|i: int| #[trigger] occurs_at(pattern@, s@, i);
        assert(s@.skip(i).len() >= pattern@.len());
        assert forall|k: int| 0 <= k < pattern@.len() implies s@[i + k] == #[trigger] pattern@[k] by {
            assert(s@.subrange(i, i + pattern@.len())[k] == pattern@[k]);
        }
    }
    if exists|i: int|
        0 <= i <= s@.len() - pattern@.len() && (#[trigger] s@.skip(i)).len() >= pattern@.len()
            && forall|k: int| 0 <= k < pattern@.len() ==> s@[i + k] == #[trigger] pattern@[k] {
        let i = choose|i: int|
            0 <= i <= s@.len() - pattern@.len() && (#[trigger] s@.skip(i)).len() >= pattern@.len()
                && forall|k: int| 0 <= k < pattern@.len() ==> s@[i + k] == #[trigger] pattern@[k];
        assert(s@.subrange(i, i + pattern@.len()) =~= pattern@);
        assert(occurs_at(pattern@, s@, i));
    }
}

} // verus!
