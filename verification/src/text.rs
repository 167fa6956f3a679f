//! Character-level helpers over `str` and `String`: equality, decimal
//! rendering and parsing of unsigned integers, substring search and the
//! trusted lower-casing of std.
use vstd::prelude::*;

verus! {

/// The decimal digit character for `d` (`d < 10`).
pub open spec fn digit_char(d: nat) -> char {
    if d == 0 { '0' }
    else if d == 1 { '1' }
    else if d == 2 { '2' }
    else if d == 3 { '3' }
    else if d == 4 { '4' }
    else if d == 5 { '5' }
    else if d == 6 { '6' }
    else if d == 7 { '7' }
    else if d == 8 { '8' }
    else { '9' }
}

/// The decimal rendering of `n`, without sign and without leading zeros.
pub open spec fn decimal(n: nat) -> Seq<char>
    decreases n,
{
    if n < 10 {
        seq![digit_char(n)]
    } else {
        decimal(n / 10).push(digit_char(n % 10))
    }
}

pub open spec fn is_digit(c: char) -> bool {
    '0' <= c && c <= '9'
}

/// A non-empty run of ASCII decimal digits.
pub open spec fn all_digits(s: Seq<char>) -> bool {
    s.len() > 0 && forall|i: int| 0 <= i < s.len() ==> #[trigger] is_digit(s[i])
}

pub open spec fn digit_value(c: char) -> nat {
    (c as int - '0' as int) as nat
}

/// The value of a run of decimal digits, most significant first.
pub open spec fn digits_value(s: Seq<char>) -> nat
    decreases s.len(),
{
    if s.len() == 0 {
        0
    } else {
        digits_value(s.drop_last()) * 10 + digit_value(s.last())
    }
}

/// The digits that std's unsigned `from_str` reads: one leading `+` is skipped.
pub open spec fn unsigned_digits(s: Seq<char>) -> Seq<char> {
    if s.len() > 0 && s[0] == '+' { s.drop_first() } else { s }
}

/// What std's `FromStr` for an unsigned integer type whose largest value is
/// `max` gives for `s`: an optional `+`, then one or more decimal digits whose
/// value does not exceed `max`; anything else is an error.
pub open spec fn parse_unsigned(s: Seq<char>, max: nat) -> Option<nat> {
    let d = unsigned_digits(s);
    if all_digits(d) && digits_value(d) <= max {
        Some(digits_value(d))
    } else {
        None
    }
}

/// Equality of two string slices, character by character.
pub fn str_eq(a: &str, b: &str) -> (r: bool)
    ensures
        r == (a@ == b@),
{
    let n = a.unicode_len();
    if n != b.unicode_len() {
        return false;
    }
    let mut i: usize = 0;
    while i < n
        invariant
            n == a@.len(),
            n == b@.len(),
            i <= n,
            forall|j: int| 0 <= j < i ==> a@[j] == b@[j],
        decreases n - i,
    {
        if a.get_char(i) != b.get_char(i) {
            return false;
        }
        i = i + 1;
    }
    assert(a@ =~= b@);
    true
}

fn digit_str(d: u64) -> (r: &'static str)
    requires
        d < 10,
    ensures
        r@ == seq![digit_char(d as nat)],
{
    proof {
        reveal_strlit("0");
        reveal_strlit("1");
        reveal_strlit("2");
        reveal_strlit("3");
        reveal_strlit("4");
        reveal_strlit("5");
        reveal_strlit("6");
        reveal_strlit("7");
        reveal_strlit("8");
        reveal_strlit("9");
    }
    if d == 0 { "0" }
    else if d == 1 { "1" }
    else if d == 2 { "2" }
    else if d == 3 { "3" }
    else if d == 4 { "4" }
    else if d == 5 { "5" }
    else if d == 6 { "6" }
    else if d == 7 { "7" }
    else if d == 8 { "8" }
    else { "9" }
}

/// Appends the decimal rendering of `n` to `out`, as `{}` formats an integer.
pub fn append_decimal(out: &mut String, n: u64)
    ensures
        final(out)@ == old(out)@ + decimal(n as nat),
    decreases n,
{
    if n < 10 {
        out.append(digit_str(n));
    } else {
        append_decimal(out, n / 10);
        out.append(digit_str(n % 10));
        assert(decimal(n as nat) == decimal((n / 10) as nat).push(digit_char((n % 10) as nat)));
    }
}

/// The decimal rendering of `n` as a new string.
pub fn u64_to_decimal(n: u64) -> (r: String)
    ensures
        r@ == decimal(n as nat),
{
    let mut s = String::new();
    append_decimal(&mut s, n);
    s
}


/// A prefix of a digit run never has a larger value than the whole run.
pub proof fn lemma_digits_value_prefix(s: Seq<char>, k: int)
    requires
        0 <= k <= s.len(),
    ensures
        digits_value(s.take(k)) <= digits_value(s),
    decreases s.len(),
{
    if k < s.len() {
        lemma_digits_value_prefix(s.drop_last(), k);
        assert(s.drop_last().take(k) =~= s.take(k));
    } else {
        assert(s.take(k) =~= s);
    }
}

proof fn lemma_digit_char_value(d: nat)
    requires
        d < 10,
    ensures
        digit_value(digit_char(d)) == d,
        is_digit(digit_char(d)),
{
}

/// The rendering of `n` is a digit run whose value is `n`.
pub proof fn lemma_decimal_digits(n: nat)
    ensures
        all_digits(decimal(n)),
        digits_value(decimal(n)) == n,
        decimal(n).len() >= 1,
    decreases n,
{
    lemma_digit_char_value(n % 10);
    if n < 10 {
        assert(decimal(n).drop_last() =~= Seq::<char>::empty());
        assert(n % 10 == n);
        assert(digits_value(decimal(n)) == digits_value(Seq::<char>::empty()) * 10 + digit_value(digit_char(n)));
    } else {
        lemma_decimal_digits(n / 10);
        let d = decimal(n);
        assert(d.drop_last() =~= decimal(n / 10));
        assert forall|i: int| 0 <= i < d.len() implies #[trigger] is_digit(d[i]) by {
            if i < d.len() - 1 {
                assert(d[i] == decimal(n / 10)[i]);
            }
        }
        assert(digits_value(d) == digits_value(decimal(n / 10)) * 10 + digit_value(digit_char(n % 10)));
    }
}

/// Parsing the rendering of `n` gives back `n`, for every `n` up to `max`.
pub proof fn lemma_parse_decimal(n: nat, max: nat)
    requires
        n <= max,
    ensures
        parse_unsigned(decimal(n), max) == Some(n),
{
    lemma_decimal_digits(n);
    assert(is_digit(decimal(n)[0]));
}

/// Reads an unsigned decimal number no larger than `max`, as std's `FromStr`
/// for unsigned integers does.
pub fn parse_unsigned_str(s: &str, max: u64) -> (r: Option<u64>)
    ensures
        match parse_unsigned(s@, max as nat) {
            Some(v) => r == Some(v as u64),
            None => r is None,
        },
{
    let n = s.unicode_len();
    let mut start: usize = 0;
    if n > 0 && s.get_char(0) == '+' {
        start = 1;
    }
    let ghost d = unsigned_digits(s@);
    assert(d =~= s@.skip(start as int));
    if start == n {
        return None;
    }
    let mut acc: u64 = 0;
    let mut i: usize = start;
    while i < n
        invariant
            n == s@.len(),
            start <= i <= n,
            start < n,
            d == s@.skip(start as int),
            d == unsigned_digits(s@),
            acc as nat == digits_value(d.take(i - start)),
            acc <= max,
            forall|j: int| 0 <= j < i - start ==> #[trigger] is_digit(d[j]),
        decreases n - i,
    {
        let c = s.get_char(i);
        assert(c == d[i - start]);
        if !('0' <= c && c <= '9') {
            assert(!is_digit(d[i - start]));
            return None;
        }
        let dv: u64 = (c as u32 - '0' as u32) as u64;
        assert(d.take(i - start + 1).drop_last() =~= d.take(i - start));
        assert(digits_value(d.take(i - start + 1)) == acc * 10 + dv);
        if acc > max / 10 {
            proof {
                assert(acc * 10 + dv > max) by (nonlinear_arith)
                    requires acc > max / 10, dv >= 0;
                lemma_digits_value_prefix(d, i - start + 1);
                assert(digits_value(d) > max);
            }
            return None;
        }
        assert(acc * 10 <= max) by (nonlinear_arith)
            requires acc <= max / 10;
        let scaled: u64 = acc * 10;
        if dv > max - scaled {
            proof {
                lemma_digits_value_prefix(d, i - start + 1);
                assert(digits_value(d) > max);
            }
            return None;
        }
        acc = scaled + dv;
        i = i + 1;
    }
    assert(d.take(n - start) =~= d);
    Some(acc)
}

/// Reads a `u8` in decimal, as `str::parse::<u8>` does.
pub fn parse_u8(s: &str) -> (r: Option<u8>)
    ensures
        match parse_unsigned(s@, 255) {
            Some(v) => r == Some(v as u8),
            None => r is None,
        },
{
    match parse_unsigned_str(s, 255) {
        Some(v) => Some(v as u8),
        None => None,
    }
}

/// Reads a `u64` in decimal, as `str::parse::<u64>` does.
pub fn parse_u64(s: &str) -> (r: Option<u64>)
    ensures
        match parse_unsigned(s@, u64::MAX as nat) {
            Some(v) => r == Some(v as u64),
            None => r is None,
        },
{
    parse_unsigned_str(s, u64::MAX)
}

/// The pieces of `s` between single spaces, as `str::split(' ')` gives them:
/// always at least one, possibly empty.
pub open spec fn split_spaces(s: Seq<char>) -> Seq<Seq<char>>
    decreases s.len(),
{
    if s.len() == 0 {
        seq![Seq::<char>::empty()]
    } else {
        let p = split_spaces(s.drop_last());
        if s.last() == ' ' {
            p.push(Seq::<char>::empty())
        } else {
            p.update(p.len() - 1, p.last().push(s.last()))
        }
    }
}

pub proof fn lemma_split_nonempty(s: Seq<char>)
    ensures
        split_spaces(s).len() >= 1,
    decreases s.len(),
{
    if s.len() > 0 {
        lemma_split_nonempty(s.drop_last());
    }
}

/// The number of spaces in `s`.
pub open spec fn space_count(s: Seq<char>) -> nat
    decreases s.len(),
{
    if s.len() == 0 {
        0
    } else {
        space_count(s.drop_last()) + if s.last() == ' ' { 1nat } else { 0nat }
    }
}

/// `w` holds no space.
pub open spec fn no_space(w: Seq<char>) -> bool {
    forall|j: int| 0 <= j < w.len() ==> w[j] != ' '
}

/// The words of `p` written one after another with one space between each
/// two of them.
pub open spec fn join_spaces(p: Seq<Seq<char>>) -> Seq<char>
    decreases p.len(),
{
    if p.len() == 0 {
        Seq::<char>::empty()
    } else if p.len() == 1 {
        p[0]
    } else {
        join_spaces(p.drop_last()) + seq![' '] + p.last()
    }
}

proof fn lemma_join_extend_last(p: Seq<Seq<char>>, c: char)
    requires
        p.len() >= 1,
    ensures
        join_spaces(p.update(p.len() - 1, p.last().push(c))) == join_spaces(p).push(c),
{
    let q = p.update(p.len() - 1, p.last().push(c));
    if p.len() == 1 {
        assert(q[0] == p[0].push(c));
    } else {
        assert(q.drop_last() =~= p.drop_last());
        assert(join_spaces(q) =~= join_spaces(p).push(c));
    }
}

/// Splitting at every space, as `str::split(' ')` does: there is one piece
/// more than there are spaces, no piece holds a space, and the pieces joined
/// again with single spaces give back the text.
pub proof fn lemma_split_spaces_pieces(s: Seq<char>)
    ensures
        split_spaces(s).len() == space_count(s) + 1,
        forall|k: int| 0 <= k < split_spaces(s).len() ==> no_space(#[trigger] split_spaces(s)[k]),
        join_spaces(split_spaces(s)) == s,
    decreases s.len(),
{
    if s.len() == 0 {
        assert(split_spaces(s)[0] =~= Seq::<char>::empty());
        assert(join_spaces(split_spaces(s)) =~= s);
    } else {
        let t = s.drop_last();
        let c = s.last();
        lemma_split_spaces_pieces(t);
        let p = split_spaces(t);
        let q = split_spaces(s);
        if c == ' ' {
            assert(q == p.push(Seq::<char>::empty()));
            assert(q.drop_last() =~= p);
            assert forall|k: int| 0 <= k < q.len() implies no_space(#[trigger] q[k]) by {
                if k < p.len() {
                    assert(q[k] == p[k]);
                }
            }
            assert(join_spaces(q) == join_spaces(p) + seq![' '] + Seq::<char>::empty());
            assert(join_spaces(q) =~= s);
        } else {
            assert(q == p.update(p.len() - 1, p.last().push(c)));
            assert forall|k: int| 0 <= k < q.len() implies no_space(#[trigger] q[k]) by {
                if k < p.len() - 1 {
                    assert(q[k] == p[k]);
                } else {
                    assert(no_space(p[k]));
                    assert(q[k] == p[k].push(c));
                }
            }
            lemma_join_extend_last(p, c);
            assert(t.push(c) =~= s);
        }
    }
}

proof fn lemma_split_append_word(a: Seq<char>, b: Seq<char>)
    requires
        no_space(b),
    ensures
        split_spaces(a).len() >= 1,
        split_spaces(a + b) == split_spaces(a).update(
            split_spaces(a).len() - 1,
            split_spaces(a).last() + b,
        ),
    decreases b.len(),
{
    lemma_split_nonempty(a);
    let p = split_spaces(a);
    if b.len() == 0 {
        assert(a + b =~= a);
        assert(p.last() + b =~= p.last());
        assert(p.update(p.len() - 1, p.last() + b) =~= p);
    } else {
        let b0 = b.drop_last();
        assert(no_space(b0)) by {
            assert forall|j: int| 0 <= j < b0.len() implies b0[j] != ' ' by {
                assert(b0[j] == b[j]);
            }
        }
        lemma_split_append_word(a, b0);
        assert((a + b).drop_last() =~= a + b0);
        assert((a + b).last() == b.last());
        assert(b.last() != ' ');
        let q = split_spaces(a + b0);
        assert(q.len() == p.len());
        assert(q.last() == p.last() + b0);
        assert((p.last() + b0).push(b.last()) =~= p.last() + b);
        assert(q.update(q.len() - 1, q.last().push(b.last())) =~= p.update(p.len() - 1, p.last() + b));
    }
}

/// Words without spaces, joined with single spaces, split back into the same
/// words.
pub proof fn lemma_split_join(p: Seq<Seq<char>>)
    requires
        p.len() >= 1,
        forall|k: int| 0 <= k < p.len() ==> no_space(#[trigger] p[k]),
    ensures
        split_spaces(join_spaces(p)) == p,
    decreases p.len(),
{
    let x = p.last();
    assert(no_space(x));
    if p.len() == 1 {
        lemma_split_append_word(Seq::<char>::empty(), x);
        assert(Seq::<char>::empty() + x =~= x);
        assert(split_spaces(Seq::<char>::empty()) == seq![Seq::<char>::empty()]);
        assert(split_spaces(x) =~= p);
    } else {
        let r = p.drop_last();
        assert forall|k: int| 0 <= k < r.len() implies no_space(#[trigger] r[k]) by {
            assert(r[k] == p[k]);
        }
        lemma_split_join(r);
        let j = join_spaces(r);
        let js = j.push(' ');
        assert(js.drop_last() =~= j);
        assert(split_spaces(js) == split_spaces(j).push(Seq::<char>::empty()));
        lemma_split_append_word(js, x);
        assert(join_spaces(p) =~= js + x);
        assert(Seq::<char>::empty() + x =~= x);
        assert(split_spaces(js + x) =~= p);
    }
}

/// The start and end of each piece of `s` between single spaces.
pub fn split_spans(s: &str) -> (r: Vec<(usize, usize)>)
    ensures
        r@.len() == split_spaces(s@).len(),
        r@.len() == space_count(s@) + 1,
        forall|k: int|
            #![trigger r@[k]]
            0 <= k < r@.len() ==> r@[k].0 <= r@[k].1 <= s@.len() && split_spaces(s@)[k]
                == s@.subrange(r@[k].0 as int, r@[k].1 as int),
{
    let n = s.unicode_len();
    let mut spans: Vec<(usize, usize)> = Vec::new();
    let mut start: usize = 0;
    let mut i: usize = 0;
    while i < n
        invariant
            n == s@.len(),
            start <= i <= n,
            spans@.len() + 1 == split_spaces(s@.take(i as int)).len(),
            forall|k: int|
                #![trigger spans@[k]]
                0 <= k < spans@.len() ==> spans@[k].0 <= spans@[k].1 <= i && split_spaces(
                    s@.take(i as int),
                )[k] == s@.subrange(spans@[k].0 as int, spans@[k].1 as int),
            split_spaces(s@.take(i as int)).last() == s@.subrange(start as int, i as int),
        decreases n - i,
    {
        let c = s.get_char(i);
        let ghost prefix = s@.take(i as int);
        assert(s@.take(i + 1).drop_last() =~= prefix);
        assert(s@.take(i + 1).last() == c);
        proof {
            lemma_split_nonempty(prefix);
        }
        let ghost p = split_spaces(prefix);
        let ghost q = split_spaces(s@.take(i + 1));
        let ghost old_spans = spans@;
        if c == ' ' {
            assert(q == p.push(Seq::<char>::empty()));
            spans.push((start, i));
            start = i + 1;
            assert(s@.subrange(start as int, i + 1) =~= Seq::<char>::empty());
            assert forall|k: int| 0 <= k < spans@.len() implies #[trigger] q[k] == s@.subrange(
                spans@[k].0 as int,
                spans@[k].1 as int,
            ) by {
                if k < old_spans.len() {
                    assert(spans@[k] == old_spans[k]);
                }
            }
        } else {
            assert(q == p.update(p.len() - 1, p.last().push(c)));
            assert(s@.subrange(start as int, i + 1) =~= s@.subrange(start as int, i as int).push(c));
            assert forall|k: int| 0 <= k < spans@.len() implies #[trigger] q[k] == s@.subrange(
                spans@[k].0 as int,
                spans@[k].1 as int,
            ) by {
                assert(q[k] == p[k]);
            }
        }
        i = i + 1;
    }
    spans.push((start, n));
    assert(s@.take(n as int) =~= s@);
    proof {
        lemma_split_spaces_pieces(s@);
    }
    spans
}


/// What std's `str::to_lowercase` gives for `s`.
pub uninterp spec fn lowercase(s: Seq<char>) -> Seq<char>;

/// Calls std's `str::to_lowercase`. Trusted: the result equals
/// `lowercase(s)`, a function of the text alone; the Unicode case mapping
/// itself is not stated.
#[verifier::external_body]
pub(crate) fn to_lowercase(s: &str) -> (r: String)
    ensures
        r@ == lowercase(s@),
{
    s.to_lowercase()
}

/// `needle` occurs in `hay` at position `i`.
pub open spec fn occurs_at(hay: Seq<char>, needle: Seq<char>, i: int) -> bool {
    0 <= i && i + needle.len() <= hay.len() && hay.subrange(i, i + needle.len()) == needle
}

/// `needle` occurs somewhere in `hay` (the empty text occurs everywhere).
pub open spec fn contains_text(hay: Seq<char>, needle: Seq<char>) -> bool {
    exists|i: int| occurs_at(hay, needle, i)
}

/// Whether `needle` occurs in `hay`, as `str::contains` answers for a text
/// pattern.
pub fn contains(hay: &str, needle: &str) -> (r: bool)
    ensures
        r == contains_text(hay@, needle@),
{
    let h = hay.unicode_len();
    let n = needle.unicode_len();
    if n > h {
        assert forall|i: int| !occurs_at(hay@, needle@, i) by {}
        return false;
    }
    let mut i: usize = 0;
    while i <= h - n
        invariant
            h == hay@.len(),
            n == needle@.len(),
            n <= h,
            forall|j: int| 0 <= j < i ==> !occurs_at(hay@, needle@, j),
        decreases h - n + 1 - i,
    {
        let mut k: usize = 0;
        let mut same = true;
        while k < n
            invariant
                h == hay@.len(),
                n == needle@.len(),
                i + n <= h,
                k <= n,
                same == (forall|m: int| 0 <= m < k ==> hay@[i + m] == needle@[m]),
            decreases n - k,
        {
            if hay.get_char(i + k) != needle.get_char(k) {
                same = false;
            }
            k = k + 1;
        }
        if same {
            assert(hay@.subrange(i as int, i + n) =~= needle@);
            assert(occurs_at(hay@, needle@, i as int));
            return true;
        }
        assert(!occurs_at(hay@, needle@, i as int)) by {
            if occurs_at(hay@, needle@, i as int) {
                assert forall|m: int| 0 <= m < n implies hay@[i + m] == needle@[m] by {
                    assert(hay@.subrange(i as int, i + n)[m] == hay@[i + m]);
                }
            }
        }
        i = i + 1;
    }
    assert forall|j: int| !occurs_at(hay@, needle@, j) by {
        if 0 <= j < i {
        }
    }
    false
}

} // verus!
