//! Character-level text helpers: decimal formatting and parsing, padding,
//! trimming and splitting, each with a specification over `Seq<char>`.
use vstd::prelude::*;

verus! {

/// The ASCII digit for `d` (`0 <= d < 10`).
pub open spec fn digit_char(d: int) -> char {
    (d + 48) as char
}

/// Decimal representation of `n`, most significant digit first, without
/// leading zeros (`0` is written as a single digit).
pub open spec fn dec_digits(n: nat) -> Seq<char>
    decreases n,
{
    if n < 10 {
        seq![digit_char(n as int)]
    } else {
        dec_digits(n / 10).push(digit_char((n % 10) as int))
    }
}

/// Exec counterpart of `digit_char`.
pub fn digit_to_char(d: u8) -> (c: char)
    requires
        d < 10,
    ensures
        c == digit_char(d as int),
{
    (d + 48) as char
}

/// Appends the decimal representation of `n` to `out`.
pub fn push_decimal(out: &mut Vec<char>, n: u64)
    ensures
        final(out)@ == old(out)@ + dec_digits(n as nat),
    decreases n,
{
    if n >= 10 {
        push_decimal(out, n / 10);
    }
    out.push(digit_to_char((n % 10) as u8));
    proof {
        assert(old(out)@ + dec_digits(n as nat) =~= final(out)@) by {
            if n >= 10 {
                assert(dec_digits(n as nat) == dec_digits((n / 10) as nat).push(digit_char((n % 10) as int)));
            }
        }
    }
}


/// `s` left-padded with `'0'` up to `width` characters (unchanged when it is
/// already at least that long).
pub open spec fn pad_zeros(s: Seq<char>, width: nat) -> Seq<char> {
    if s.len() >= width {
        s
    } else {
        Seq::new((width - s.len()) as nat, |i: int| '0') + s
    }
}

/// Rust's `{:0width$}` rendering of an unsigned integer.
pub open spec fn fmt_unsigned(n: nat, width: nat) -> Seq<char> {
    pad_zeros(dec_digits(n), width)
}

/// Rust's `{:0width$}` rendering of a signed integer: the sign goes first,
/// the zeros between the sign and the digits.
pub open spec fn fmt_signed(n: int, width: nat) -> Seq<char> {
    if n >= 0 {
        pad_zeros(dec_digits(n as nat), width)
    } else {
        seq!['-'] + pad_zeros(dec_digits((-n) as nat), if width >= 1 { (width - 1) as nat } else { 0 })
    }
}

/// Appends `count` copies of `'0'` to `out`.
pub fn push_zeros(out: &mut Vec<char>, count: usize)
    ensures
        final(out)@ == old(out)@ + Seq::new(count as nat, |i: int| '0'),
{
    let mut i: usize = 0;
    while i < count
        invariant
            i <= count,
            out@ == old(out)@ + Seq::new(i as nat, |k: int| '0'),
        decreases count - i,
    {
        out.push('0');
        i = i + 1;
        assert(out@ =~= old(out)@ + Seq::new(i as nat, |k: int| '0'));
    }
}

/// Appends `fmt_unsigned(n, width)` to `out`.
pub fn push_unsigned_padded(out: &mut Vec<char>, n: u64, width: usize)
    ensures
        final(out)@ == old(out)@ + fmt_unsigned(n as nat, width as nat),
{
    let mut digits: Vec<char> = Vec::new();
    push_decimal(&mut digits, n);
    assert(digits@ =~= dec_digits(n as nat));
    if digits.len() < width {
        push_zeros(out, width - digits.len());
    }
    let mut i: usize = 0;
    let ghost base = out@;
    while i < digits.len()
        invariant
            i <= digits.len(),
            out@ == base + digits@.take(i as int),
        decreases digits.len() - i,
    {
        out.push(digits[i]);
        i = i + 1;
        assert(out@ =~= base + digits@.take(i as int));
    }
    assert(digits@.take(digits.len() as int) =~= digits@);
    assert(out@ =~= old(out)@ + fmt_unsigned(n as nat, width as nat));
}

/// Appends `fmt_signed(n, width)` to `out`.
pub fn push_signed_padded(out: &mut Vec<char>, n: i64, width: usize)
    ensures
        final(out)@ == old(out)@ + fmt_signed(n as int, width as nat),
{
    if n >= 0 {
        push_unsigned_padded(out, n as u64, width);
    } else {
        out.push('-');
        let ghost mid = out@;
        let mag: u64 = if n == i64::MIN { 9223372036854775808u64 } else { (-n) as u64 };
        let w: usize = if width >= 1 { width - 1 } else { 0 };
        push_unsigned_padded(out, mag, w);
        assert(out@ =~= old(out)@ + fmt_signed(n as int, width as nat));
    }
}

/// Appends the characters of `s` to `out`.
pub fn push_all(out: &mut Vec<char>, s: &Vec<char>)
    ensures
        final(out)@ == old(out)@ + s@,
{
    let mut i: usize = 0;
    let ghost base = out@;
    while i < s.len()
        invariant
            i <= s.len(),
            out@ == base + s@.take(i as int),
        decreases s.len() - i,
    {
        out.push(s[i]);
        i = i + 1;
        assert(out@ =~= base + s@.take(i as int));
    }
    assert(s@.take(s.len() as int) =~= s@);
}

/// The characters of `s`, in order.
pub fn str_chars(s: &str) -> (v: Vec<char>)
    ensures
        v@ == s@,
{
    broadcast use vstd::string::group_string_axioms;
    let mut v: Vec<char> = Vec::new();
    for c in it: s.chars()
        invariant
            v@ == it.seq().take(it.index() as int),
            it.seq() == s@,
    {
        v.push(c);
        assert(v@ =~= it.seq().take(it.index() as int + 1));
    }
    assert(v@ =~= s@);
    v
}

/// `Iterator::collect` of `v`'s characters into a `String`: claimed to give
/// a string holding exactly the characters of `v`, in order.
#[verifier::external_body]
pub(crate) fn string_from_chars(v: &Vec<char>) -> (s: String)
    ensures
        s@ == v@,
{
    v.iter().collect()
}


/// Rust's `char::is_whitespace` (the Unicode `White_Space` property).
pub open spec fn is_ws(c: char) -> bool {
    let u = c as u32;
    (0x09 <= u <= 0x0d) || u == 0x20 || u == 0x85 || u == 0xa0 || u == 0x1680 || (0x2000 <= u
        <= 0x200a) || u == 0x2028 || u == 0x2029 || u == 0x202f || u == 0x205f || u == 0x3000
}

/// Exec counterpart of `is_ws`.
pub fn char_is_ws(c: char) -> (b: bool)
    ensures
        b == is_ws(c),
{
    let u = c as u32;
    (0x09 <= u && u <= 0x0d) || u == 0x20 || u == 0x85 || u == 0xa0 || u == 0x1680 || (0x2000
        <= u && u <= 0x200a) || u == 0x2028 || u == 0x2029 || u == 0x202f || u == 0x205f || u
        == 0x3000
}

/// Number of whitespace characters at the start of `s`.
pub open spec fn lead_ws(s: Seq<char>) -> nat
    decreases s.len(),
{
    if s.len() > 0 && is_ws(s[0]) {
        1 + lead_ws(s.drop_first())
    } else {
        0
    }
}

/// Number of whitespace characters at the end of `s`.
pub open spec fn trail_ws(s: Seq<char>) -> nat
    decreases s.len(),
{
    if s.len() > 0 && is_ws(s.last()) {
        1 + trail_ws(s.drop_last())
    } else {
        0
    }
}

/// Rust's `str::trim`: `s` without leading and trailing whitespace.
pub open spec fn trim(s: Seq<char>) -> Seq<char> {
    let a = s.skip(lead_ws(s) as int);
    a.take(a.len() - trail_ws(a))
}

proof fn lemma_lead_ws_bound(s: Seq<char>)
    ensures
        lead_ws(s) <= s.len(),
    decreases s.len(),
{
    if s.len() > 0 && is_ws(s[0]) {
        lemma_lead_ws_bound(s.drop_first());
    }
}

proof fn lemma_trail_ws_bound(s: Seq<char>)
    ensures
        trail_ws(s) <= s.len(),
    decreases s.len(),
{
    if s.len() > 0 && is_ws(s.last()) {
        lemma_trail_ws_bound(s.drop_last());
    }
}

/// `trim` of a vector of characters.
pub fn trim_chars(s: &Vec<char>) -> (r: Vec<char>)
    ensures
        r@ == trim(s@),
{
    let mut i: usize = 0;
    assert(s@.skip(0) =~= s@);
    while i < s.len() && char_is_ws(s[i])
        invariant
            i <= s.len(),
            lead_ws(s@) == i + lead_ws(s@.skip(i as int)),
        decreases s.len() - i,
    {
        assert(s@.skip(i as int).drop_first() =~= s@.skip(i + 1));
        i = i + 1;
    }
    assert(lead_ws(s@.skip(i as int)) == 0);
    let ghost a = s@.skip(i as int);
    let mut j: usize = s.len();
    assert(a.take(j - i) =~= a);
    while j > i && char_is_ws(s[j - 1])
        invariant
            i <= j <= s.len(),
            a == s@.skip(i as int),
            trail_ws(a) == (s.len() - j) + trail_ws(a.take(j - i)),
        decreases j,
    {
        assert(a.take(j - i).drop_last() =~= a.take(j - 1 - i));
        j = j - 1;
    }
    assert(trail_ws(a.take(j - i)) == 0);
    let mut r: Vec<char> = Vec::new();
    let mut k: usize = i;
    while k < j
        invariant
            i <= k <= j <= s.len(),
            r@ == s@.subrange(i as int, k as int),
        decreases j - k,
    {
        r.push(s[k]);
        k = k + 1;
        assert(r@ =~= s@.subrange(i as int, k as int));
    }
    assert(r@ =~= trim(s@));
    r
}

/// Rust's `str::split` on a single character: the pieces between
/// occurrences of `sep` (always at least one piece).
pub open spec fn split(s: Seq<char>, sep: char) -> Seq<Seq<char>>
    decreases s.len(),
{
    if s.len() == 0 {
        seq![Seq::empty()]
    } else {
        let r = split(s.drop_last(), sep);
        if s.last() == sep {
            r.push(Seq::empty())
        } else {
            r.update(r.len() - 1, r.last().push(s.last()))
        }
    }
}

pub proof fn lemma_split_nonempty(s: Seq<char>, sep: char)
    ensures
        split(s, sep).len() >= 1,
    decreases s.len(),
{
    if s.len() > 0 {
        lemma_split_nonempty(s.drop_last(), sep);
    }
}

/// The character sequences held by a vector of character vectors.
pub open spec fn views(parts: Seq<Vec<char>>) -> Seq<Seq<char>> {
    parts.map_values(|v: Vec<char>| v@)
}

/// `split` of a vector of characters.
pub fn split_chars(s: &Vec<char>, sep: char) -> (parts: Vec<Vec<char>>)
    ensures
        views(parts@) == split(s@, sep),
{
    let mut parts: Vec<Vec<char>> = Vec::new();
    let mut cur: Vec<char> = Vec::new();
    let mut i: usize = 0;
    while i < s.len()
        invariant
            i <= s.len(),
            views(parts@).push(cur@) == split(s@.take(i as int), sep),
        decreases s.len() - i,
    {
        let ghost prev = s@.take(i as int);
        assert(s@.take(i + 1).drop_last() =~= prev);
        proof {
            lemma_split_nonempty(prev, sep);
        }
        if s[i] == sep {
            let done = cur;
            parts.push(done);
            cur = Vec::new();
            assert(views(parts@).push(cur@) =~= split(s@.take(i + 1), sep));
        } else {
            cur.push(s[i]);
            assert(views(parts@).push(cur@) =~= split(s@.take(i + 1), sep));
        }
        i = i + 1;
    }
    assert(s@.take(s.len() as int) =~= s@);
    let ghost last = cur@;
    let ghost before = views(parts@);
    parts.push(cur);
    assert(views(parts@) =~= before.push(last));
    parts
}

/// The part of `s` before the first `sep` (all of `s` when there is none);
/// the first item of Rust's `str::split`.
pub fn first_piece(s: &Vec<char>, sep: char) -> (r: Vec<char>)
    ensures
        r@ == split(s@, sep)[0],
{
    broadcast use vstd::std_specs::vec::group_vec_axioms;
    let parts = split_chars(s, sep);
    proof {
        lemma_split_nonempty(s@, sep);
    }
    let r = parts[0].clone();
    r
}


/// `c` is an ASCII decimal digit.
pub open spec fn is_digit(c: char) -> bool {
    '0' <= c <= '9'
}

/// Every character of `s` is an ASCII decimal digit.
pub open spec fn all_digits(s: Seq<char>) -> bool {
    forall|i: int| 0 <= i < s.len() ==> is_digit(#[trigger] s[i])
}

/// The number written by the decimal digits `s` (leading zeros allowed).
pub open spec fn digits_value(s: Seq<char>) -> nat
    decreases s.len(),
{
    if s.len() == 0 {
        0
    } else {
        digits_value(s.drop_last()) * 10 + ((s.last() as int - 48) as nat)
    }
}

/// Rust's `str::parse` for an unsigned integer type whose largest value is
/// `max`: an optional `+`, then one or more decimal digits, with a value of
/// at most `max`.
pub open spec fn parse_unsigned(s: Seq<char>, max: nat) -> Option<nat> {
    let d = if s.len() > 0 && s[0] == '+' {
        s.drop_first()
    } else {
        s
    };
    if d.len() == 0 || !all_digits(d) || digits_value(d) > max {
        None
    } else {
        Some(digits_value(d))
    }
}

proof fn lemma_digits_value_prefix(s: Seq<char>, k: int)
    requires
        all_digits(s),
        0 <= k <= s.len(),
    ensures
        digits_value(s.take(k)) <= digits_value(s),
    decreases s.len(),
{
    if k < s.len() {
        assert(s.drop_last().take(k) =~= s.take(k));
        lemma_digits_value_prefix(s.drop_last(), k);
    } else {
        assert(s.take(k) =~= s);
    }
}

/// `parse_unsigned(s, max)` computed on a vector of characters.
pub fn parse_decimal(s: &Vec<char>, max: u64) -> (r: Option<u64>)
    requires
        max <= u32::MAX,
    ensures
        match parse_unsigned(s@, max as nat) {
            Some(v) => r == Some(v as u64),
            None => r is None,
        },
{
    let start: usize = if s.len() > 0 && s[0] == '+' { 1 } else { 0 };
    if start == s.len() {
        return None;
    }
    let ghost d = s@.skip(start as int);
    assert(d =~= (if s@.len() > 0 && s@[0] == '+' { s@.drop_first() } else { s@ }));
    let mut acc: u64 = 0;
    let mut i: usize = start;
    while i < s.len()
        invariant
            start <= i <= s.len(),
            d == s@.skip(start as int),
            d == (if s@.len() > 0 && s@[0] == '+' { s@.drop_first() } else { s@ }),
            d.len() > 0,
            all_digits(d.take(i - start)),
            acc == digits_value(d.take(i - start)),
            acc <= max,
            max <= u32::MAX,
        decreases s.len() - i,
    {
        let c = s[i];
        if c < '0' || c > '9' {
            assert(d[i - start] == s@[i as int]);
            assert(!is_digit(d[i - start]));
            assert(!all_digits(d));
            assert(parse_unsigned(s@, max as nat) is None);
            return None;
        }
        let dv = (c as u32 - 48) as u64;
        assert(d.take(i + 1 - start).drop_last() =~= d.take(i - start));
        assert(d.take(i + 1 - start).last() == c);
        assert(digits_value(d.take(i + 1 - start)) == digits_value(d.take(i - start)) * 10 + dv);
        acc = acc * 10 + dv;
        i = i + 1;
        assert(all_digits(d.take(i - start))) by {
            assert forall|k: int| 0 <= k < d.take(i - start).len() implies is_digit(
                #[trigger] d.take(i - start)[k],
            ) by {
                if k < i - 1 - start {
                    assert(d.take(i - start)[k] == d.take(i - 1 - start)[k]);
                }
            }
        }
        if acc > max {
            proof {
                if all_digits(d) {
                    lemma_digits_value_prefix(d, i - start);
                }
            }
            assert(parse_unsigned(s@, max as nat) is None);
            return None;
        }
    }
    assert(d.take(i - start) =~= d);
    Some(acc)
}

/// Rust's `str::parse::<u8>`.
pub fn parse_u8(s: &Vec<char>) -> (r: Option<u8>)
    ensures
        match parse_unsigned(s@, 255) {
            Some(v) => r == Some(v as u8),
            None => r is None,
        },
{
    match parse_decimal(s, 255) {
        Some(v) => Some(v as u8),
        None => None,
    }
}

/// Rust's `str::parse::<u32>`.
pub fn parse_u32(s: &Vec<char>) -> (r: Option<u32>)
    ensures
        match parse_unsigned(s@, u32::MAX as nat) {
            Some(v) => r == Some(v as u32),
            None => r is None,
        },
{
    match parse_decimal(s, 4294967295) {
        Some(v) => Some(v as u32),
        None => None,
    }
}


/// `s` holds no `sep`.
pub open spec fn sep_free(s: Seq<char>, sep: char) -> bool {
    forall|i: int| 0 <= i < s.len() ==> #[trigger] s[i] != sep
}

/// The pieces `fs` joined with `sep` between them.
pub open spec fn join(fs: Seq<Seq<char>>, sep: char) -> Seq<char>
    decreases fs.len(),
{
    if fs.len() == 0 {
        Seq::empty()
    } else if fs.len() == 1 {
        fs[0]
    } else {
        join(fs.drop_last(), sep) + seq![sep] + fs.last()
    }
}

pub proof fn lemma_split_sep_free(s: Seq<char>, sep: char)
    requires
        sep_free(s, sep),
    ensures
        split(s, sep) == seq![s],
    decreases s.len(),
{
    if s.len() == 0 {
        assert(split(s, sep) =~~= seq![s]);
    } else {
        lemma_split_sep_free(s.drop_last(), sep);
        assert(split(s, sep) =~~= seq![s]);
    }
}

pub proof fn lemma_split_append(a: Seq<char>, b: Seq<char>, sep: char)
    requires
        sep_free(b, sep),
    ensures
        split(a + seq![sep] + b, sep) == split(a, sep).push(b),
    decreases b.len(),
{
    let x = a + seq![sep] + b;
    if b.len() == 0 {
        assert(x.drop_last() =~= a);
        assert(split(x, sep) =~~= split(a, sep).push(b));
    } else {
        assert(x.drop_last() =~= a + seq![sep] + b.drop_last());
        lemma_split_append(a, b.drop_last(), sep);
        assert(b.drop_last().push(b.last()) =~= b);
        assert(split(x, sep) =~~= split(a, sep).push(b));
    }
}

/// Splitting pieces that hold no separator, joined with it, gives them back.
pub proof fn lemma_split_join(fs: Seq<Seq<char>>, sep: char)
    requires
        fs.len() >= 1,
        forall|i: int| 0 <= i < fs.len() ==> sep_free(#[trigger] fs[i], sep),
    ensures
        split(join(fs, sep), sep) == fs,
    decreases fs.len(),
{
    if fs.len() == 1 {
        lemma_split_sep_free(fs[0], sep);
        assert(seq![fs[0]] =~= fs);
    } else {
        let init = fs.drop_last();
        assert forall|i: int| 0 <= i < init.len() implies sep_free(#[trigger] init[i], sep) by {
            assert(init[i] == fs[i]);
        }
        lemma_split_join(init, sep);
        assert(sep_free(fs.last(), sep));
        lemma_split_append(join(init, sep), fs.last(), sep);
        assert(init.push(fs.last()) =~= fs);
    }
}


/// `10^n`.
pub open spec fn pow10(n: nat) -> nat
    decreases n,
{
    if n == 0 {
        1
    } else {
        10 * pow10((n - 1) as nat)
    }
}

pub proof fn lemma_digit_char_value(d: int)
    requires
        0 <= d < 10,
    ensures
        digit_char(d) as int == d + 48,
        is_digit(digit_char(d)),
{
    assert(d == 0 || d == 1 || d == 2 || d == 3 || d == 4 || d == 5 || d == 6 || d == 7 || d == 8
        || d == 9);
}

pub proof fn lemma_dec_digits(n: nat)
    ensures
        all_digits(dec_digits(n)),
        digits_value(dec_digits(n)) == n,
        dec_digits(n).len() >= 1,
    decreases n,
{
    lemma_digit_char_value((n % 10) as int);
    if n >= 10 {
        lemma_dec_digits(n / 10);
        let d = dec_digits(n / 10);
        let full = dec_digits(n);
        assert(full == d.push(digit_char((n % 10) as int)));
        assert(full.drop_last() =~= d);
        assert(full.last() == digit_char((n % 10) as int));
        assert(digits_value(full) == digits_value(d) * 10 + (n % 10));
        assert forall|i: int| 0 <= i < full.len() implies is_digit(#[trigger] full[i]) by {
            if i < d.len() {
                assert(full[i] == d[i]);
            }
        }
    } else {
        let full = dec_digits(n);
        assert(full == seq![digit_char(n as int)]);
        assert(full.drop_last() =~= Seq::<char>::empty());
        assert(digits_value(full.drop_last()) == 0);
    }
}

pub proof fn lemma_dec_digits_len(n: nat, k: nat)
    requires
        n < pow10(k),
        k >= 1,
    ensures
        dec_digits(n).len() <= k,
    decreases n,
{
    if n >= 10 {
        assert(k >= 1) by {
            if k == 0 {
                assert(pow10(0) == 1);
            }
        }
        assert(pow10(k) == 10 * pow10((k - 1) as nat));
        assert(n / 10 < pow10((k - 1) as nat));
        assert(k >= 2) by {
            if k == 1 {
                assert(pow10(0) == 1);
            }
        }
        lemma_dec_digits_len(n / 10, (k - 1) as nat);
        assert(dec_digits(n) == dec_digits(n / 10).push(digit_char((n % 10) as int)));
    } else {
        if k == 0 {
            assert(pow10(0) == 1);
        }
    }
}

proof fn lemma_zeros_value(k: nat)
    ensures
        digits_value(Seq::new(k, |i: int| '0')) == 0,
        all_digits(Seq::new(k, |i: int| '0')),
    decreases k,
{
    if k > 0 {
        lemma_zeros_value((k - 1) as nat);
        assert(Seq::new(k, |i: int| '0').drop_last() =~= Seq::new((k - 1) as nat, |i: int| '0'));
    }
}

pub proof fn lemma_zeros_prefix_value(k: nat, s: Seq<char>)
    ensures
        digits_value(Seq::new(k, |i: int| '0') + s) == digits_value(s),
    decreases s.len(),
{
    let z = Seq::new(k, |i: int| '0');
    if s.len() == 0 {
        assert(z + s =~= z);
        lemma_zeros_value(k);
    } else {
        lemma_zeros_prefix_value(k, s.drop_last());
        assert((z + s).drop_last() =~= z + s.drop_last());
    }
}

/// Facts about a zero-padded decimal rendering.
pub proof fn lemma_fmt_unsigned(n: nat, width: nat)
    ensures
        all_digits(fmt_unsigned(n, width)),
        digits_value(fmt_unsigned(n, width)) == n,
        fmt_unsigned(n, width).len() >= 1,
        n < pow10(width) && width >= 1 ==> fmt_unsigned(n, width).len() == width,
{
    lemma_dec_digits(n);
    let d = dec_digits(n);
    if d.len() < width {
        lemma_zeros_prefix_value((width - d.len()) as nat, d);
        lemma_zeros_value((width - d.len()) as nat);
        let z = Seq::new((width - d.len()) as nat, |i: int| '0');
        assert forall|i: int| 0 <= i < (z + d).len() implies is_digit(#[trigger] (z + d)[i]) by {
            if i < z.len() {
                assert((z + d)[i] == z[i]);
            } else {
                assert((z + d)[i] == d[i - z.len()]);
            }
        }
    }
    if n < pow10(width) && width >= 1 {
        lemma_dec_digits_len(n, width);
    }
}

/// Digit strings hold no whitespace, so trimming leaves them as they are.
pub proof fn lemma_trim_digits(s: Seq<char>)
    requires
        all_digits(s),
        s.len() >= 1,
    ensures
        trim(s) == s,
{
    assert(!is_ws(s[0]));
    assert(lead_ws(s) == 0);
    assert(s.skip(0) =~= s);
    assert(!is_ws(s.last()));
    assert(trail_ws(s) == 0);
    assert(s.take(s.len() as int) =~= s);
}


/// Lexicographic order on character sequences (by code point; for ASCII
/// text this is byte order).
pub open spec fn lex_lt(a: Seq<char>, b: Seq<char>) -> bool
    decreases a.len(),
{
    if a.len() == 0 {
        b.len() > 0
    } else if b.len() == 0 {
        false
    } else if a[0] != b[0] {
        (a[0] as u32) < (b[0] as u32)
    } else {
        lex_lt(a.drop_first(), b.drop_first())
    }
}

/// `a` sorts no later than `b`.
pub open spec fn lex_le(a: Seq<char>, b: Seq<char>) -> bool {
    a == b || lex_lt(a, b)
}

proof fn lemma_digits_value_front(s: Seq<char>)
    requires
        s.len() >= 1,
        all_digits(s),
    ensures
        digits_value(s) == (s[0] as int - 48) * pow10((s.len() - 1) as nat) + digits_value(
            s.drop_first(),
        ),
    decreases s.len(),
{
    if s.len() == 1 {
        assert(s.drop_last() =~= Seq::<char>::empty());
        assert(s.drop_first() =~= Seq::<char>::empty());
        assert(pow10(0) == 1);
        assert(digits_value(s.drop_last()) == 0);
        assert(digits_value(s.drop_first()) == 0);
        assert(s.last() == s[0]);
        assert(digits_value(s) == s[0] as int - 48);
    } else {
        let init = s.drop_last();
        assert forall|i: int| 0 <= i < init.len() implies is_digit(#[trigger] init[i]) by {
            assert(init[i] == s[i]);
        }
        lemma_digits_value_front(init);
        assert(init.drop_first() =~= s.drop_first().drop_last());
        assert(s.drop_first().last() == s.last());
        let p = pow10((init.len() - 1) as nat);
        assert(pow10((s.len() - 1) as nat) == 10 * p);
        let d0 = s[0] as int - 48;
        let rest = digits_value(init.drop_first());
        assert(digits_value(s) == (d0 * p + rest) * 10 + (s.last() as int - 48));
        assert(digits_value(s.drop_first()) == rest * 10 + (s.last() as int - 48));
        assert((d0 * p + rest) * 10 == d0 * (10 * p) + rest * 10) by (nonlinear_arith);
        assert(digits_value(s) == d0 * pow10((s.len() - 1) as nat) + digits_value(s.drop_first()));
    }
}

proof fn lemma_digits_value_bound(s: Seq<char>)
    requires
        all_digits(s),
    ensures
        digits_value(s) < pow10(s.len()),
    decreases s.len(),
{
    if s.len() > 0 {
        let init = s.drop_last();
        assert forall|i: int| 0 <= i < init.len() implies is_digit(#[trigger] init[i]) by {
            assert(init[i] == s[i]);
        }
        lemma_digits_value_bound(init);
        assert(pow10(s.len()) == 10 * pow10(init.len()));
        assert(is_digit(s.last()));
    }
}

/// Equal-length digit strings sort as the numbers they write.
pub proof fn lemma_lex_digits(a: Seq<char>, b: Seq<char>)
    requires
        a.len() == b.len(),
        all_digits(a),
        all_digits(b),
    ensures
        lex_lt(a, b) <==> digits_value(a) < digits_value(b),
        a == b <==> digits_value(a) == digits_value(b),
    decreases a.len(),
{
    if a.len() == 0 {
        assert(a =~= b);
    } else {
        let ta = a.drop_first();
        let tb = b.drop_first();
        assert forall|i: int| 0 <= i < ta.len() implies is_digit(#[trigger] ta[i]) by {
            assert(ta[i] == a[i + 1]);
        }
        assert forall|i: int| 0 <= i < tb.len() implies is_digit(#[trigger] tb[i]) by {
            assert(tb[i] == b[i + 1]);
        }
        lemma_lex_digits(ta, tb);
        lemma_digits_value_front(a);
        lemma_digits_value_front(b);
        lemma_digits_value_bound(ta);
        lemma_digits_value_bound(tb);
        let p = pow10((a.len() - 1) as nat);
        let da = a[0] as int - 48;
        let db = b[0] as int - 48;
        let ra = digits_value(ta) as int;
        let rb = digits_value(tb) as int;
        assert(is_digit(a[0]) && is_digit(b[0]));
        if da < db {
            assert(da * p + ra < db * p + rb) by (nonlinear_arith)
                requires
                    da < db,
                    0 <= ra < p,
                    0 <= rb,
            ;
            assert(a != b) by {
                assert(a[0] != b[0]);
            }
        } else if db < da {
            assert(db * p + rb < da * p + ra) by (nonlinear_arith)
                requires
                    db < da,
                    0 <= rb < p,
                    0 <= ra,
            ;
            assert(a != b) by {
                assert(a[0] != b[0]);
            }
        } else {
            assert(a[0] == b[0]);
            if ta == tb {
                assert(a =~= b) by {
                    assert forall|i: int| 0 <= i < a.len() implies a[i] == b[i] by {
                        if i > 0 {
                            assert(a[i] == ta[i - 1]);
                            assert(b[i] == tb[i - 1]);
                        }
                    }
                }
            }
            if a == b {
                assert(ta == tb);
            }
        }
    }
}

/// Sequences that share the length of their first parts sort by the first
/// parts, then by the rest.
pub proof fn lemma_lex_concat(x1: Seq<char>, y1: Seq<char>, x2: Seq<char>, y2: Seq<char>)
    requires
        x1.len() == x2.len(),
    ensures
        lex_lt(x1 + y1, x2 + y2) <==> lex_lt(x1, x2) || (x1 == x2 && lex_lt(y1, y2)),
        (x1 + y1 == x2 + y2) <==> (x1 == x2 && y1 == y2),
    decreases x1.len(),
{
    if x1.len() == 0 {
        assert(x1 + y1 =~= y1);
        assert(x2 + y2 =~= y2);
        assert(x1 =~= x2);
    } else {
        lemma_lex_concat(x1.drop_first(), y1, x2.drop_first(), y2);
        assert((x1 + y1).drop_first() =~= x1.drop_first() + y1);
        assert((x2 + y2).drop_first() =~= x2.drop_first() + y2);
        assert((x1 + y1)[0] == x1[0]);
        assert((x2 + y2)[0] == x2[0]);
        if x1[0] == x2[0] {
            if x1.drop_first() == x2.drop_first() {
                assert(x1 =~= x2) by {
                    assert forall|i: int| 0 <= i < x1.len() implies x1[i] == x2[i] by {
                        if i > 0 {
                            assert(x1[i] == x1.drop_first()[i - 1]);
                            assert(x2[i] == x2.drop_first()[i - 1]);
                        }
                    }
                }
            }
            if x1 == x2 {
                assert(x1.drop_first() == x2.drop_first());
            }
            if x1 + y1 == x2 + y2 {
                assert(x1.drop_first() + y1 == x2.drop_first() + y2);
            }
            if x1.drop_first() + y1 == x2.drop_first() + y2 {
                assert(x1 + y1 =~= x2 + y2) by {
                    assert forall|i: int| 0 <= i < (x1 + y1).len() implies (x1 + y1)[i] == (x2
                        + y2)[i] by {
                        if i > 0 {
                            assert((x1 + y1)[i] == (x1.drop_first() + y1)[i - 1]);
                            assert((x2 + y2)[i] == (x2.drop_first() + y2)[i - 1]);
                        }
                    }
                }
            }
        } else {
            assert(x1 != x2);
            assert(x1 + y1 != x2 + y2);
        }
    }
}


/// Whether two character vectors hold the same characters.
pub fn chars_eq(a: &Vec<char>, b: &Vec<char>) -> (r: bool)
    ensures
        r == (a@ == b@),
{
    if a.len() != b.len() {
        return false;
    }
    let mut i: usize = 0;
    while i < a.len()
        invariant
            i <= a@.len(),
            a@.len() == b@.len(),
            forall|k: int| 0 <= k < i ==> a@[k] == b@[k],
        decreases a@.len() - i,
    {
        if a[i] != b[i] {
            return false;
        }
        i = i + 1;
    }
    assert(a@ =~= b@);
    true
}

/// Appends the characters of `s` to `out`.
pub fn push_str(out: &mut Vec<char>, s: &str)
    ensures
        final(out)@ == old(out)@ + s@,
{
    let cs = str_chars(s);
    push_all(out, &cs);
}

} // verus!
