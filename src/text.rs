//! Characters, fields and decimal numbers in the text that the query
//! commands print.
use vstd::prelude::*;

verus! {

/// Whether `c` separates fields in a line of command output: a Unicode
/// white-space character (White_Space property), as `char::is_whitespace`
/// lists them.
pub open spec fn is_blank(c: char) -> bool {
    ('\t' <= c && c <= '\r') || c == ' ' || c == '\u{85}' || c == '\u{a0}' || c == '\u{1680}'
        || ('\u{2000}' <= c && c <= '\u{200a}') || c == '\u{2028}' || c == '\u{2029}'
        || c == '\u{202f}' || c == '\u{205f}' || c == '\u{3000}'
}

/// The fields of `s`: its maximal runs of non-blank characters, left to right.
pub open spec fn fields_of(s: Seq<char>) -> Seq<Seq<char>>
    decreases s.len(),
{
    if s.len() == 0 {
        seq![]
    } else {
        let pre = fields_of(s.drop_last());
        let c = s.last();
        if is_blank(c) {
            pre
        } else if s.len() > 1 && !is_blank(s[s.len() - 2]) {
            pre.update(pre.len() - 1, pre.last().push(c))
        } else {
            pre.push(seq![c])
        }
    }
}

/// Whether `w` can stand as one field: not empty, and without blanks.
pub open spec fn is_field(w: Seq<char>) -> bool {
    w.len() > 0 && forall|i: int| 0 <= i < w.len() ==> !is_blank(#[trigger] w[i])
}

/// The fields `f` written out with one space between two neighbours.
pub open spec fn join_fields(f: Seq<Seq<char>>) -> Seq<char>
    decreases f.len(),
{
    if f.len() == 0 {
        seq![]
    } else if f.len() == 1 {
        f[0]
    } else {
        join_fields(f.drop_last()) + seq![' '] + f.last()
    }
}

/// Whether `c` is a decimal digit.
pub open spec fn is_digit(c: char) -> bool {
    '0' <= c && c <= '9'
}

/// The number that the decimal digits `s` write.
pub open spec fn digits_value(s: Seq<char>) -> int
    decreases s.len(),
{
    if s.len() == 0 {
        0
    } else {
        digits_value(s.drop_last()) * 10 + (s.last() as int - '0' as int)
    }
}

/// The value of a run of decimal digits that fits in an `i64`; `None` for
/// anything else.
pub open spec fn digits_of(s: Seq<char>) -> Option<i64> {
    if s.len() > 0 && (forall|i: int| 0 <= i < s.len() ==> is_digit(#[trigger] s[i]))
        && digits_value(s) <= i64::MAX {
        Some(digits_value(s) as i64)
    } else {
        None
    }
}

/// Whether `s` is a `-` followed by one or more zeros: a way of writing zero.
pub open spec fn is_negative_zero(s: Seq<char>) -> bool {
    s.len() > 1 && s[0] == '-' && forall|i: int| 1 <= i < s.len() ==> #[trigger] s[i] == '0'
}

/// The value of a field that must hold a non-negative decimal integer that
/// fits in an `i64`: digits with an optional leading `+`, or a `-` followed
/// by zeros only (zero); `None` for anything else.
pub open spec fn decimal_of(s: Seq<char>) -> Option<i64> {
    if s.len() > 0 && s[0] == '+' {
        digits_of(s.drop_first())
    } else if is_negative_zero(s) {
        Some(0)
    } else {
        digits_of(s)
    }
}

/// The characters of each character vector.
pub open spec fn views(v: Seq<Vec<char>>) -> Seq<Seq<char>> {
    v.map_values(|w: Vec<char>| w@)
}

/// The characters of each string.
pub open spec fn string_views(v: Seq<String>) -> Seq<Seq<char>> {
    v.map_values(|s: String| s@)
}

/// Whether `c` separates fields (see `is_blank`).
pub fn is_blank_char(c: char) -> (r: bool)
    ensures
        r == is_blank(c),
{
    ('\t' <= c && c <= '\r') || c == ' ' || c == '\u{85}' || c == '\u{a0}' || c == '\u{1680}'
        || ('\u{2000}' <= c && c <= '\u{200a}') || c == '\u{2028}' || c == '\u{2029}'
        || c == '\u{202f}' || c == '\u{205f}' || c == '\u{3000}'
}

/// The characters of `s`, in order.
pub fn chars_of(s: &str) -> (r: Vec<char>)
    ensures
        r@ == s@,
{
    let mut out: Vec<char> = Vec::new();
    for c in it: s.chars()
        invariant
            out@ == it.seq().take(it.index() as int),
            it.seq() == s@,
    {
        out.push(c);
    }
    assert(out@ =~= s@);
    out
}

/// Relies on String::push: appends one character at the end.
#[verifier::external_body]
fn push_char(s: &mut String, c: char)
    ensures
        final(s)@ == old(s)@.push(c),
{
    s.push(c);
}

/// A string that holds the characters `v`.
pub fn string_of(v: &Vec<char>) -> (r: String)
    ensures
        r@ == v@,
{
    let mut out = String::new();
    let mut i: usize = 0;
    while i < v.len()
        invariant
            i <= v.len(),
            out@ == v@.take(i as int),
        decreases v.len() - i,
    {
        push_char(&mut out, v[i]);
        i = i + 1;
        assert(out@ =~= v@.take(i as int));
    }
    assert(out@ =~= v@);
    out
}

/// Splits `s` into its fields (see `fields_of`).
pub fn split_fields(s: &Vec<char>) -> (r: Vec<Vec<char>>)
    ensures
        views(r@) == fields_of(s@),
{
    let mut done: Vec<Vec<char>> = Vec::new();
    let mut cur: Vec<char> = Vec::new();
    let mut i: usize = 0;
    while i < s.len()
        invariant
            i <= s.len(),
            fields_of(s@.take(i as int)) == if cur@.len() == 0 {
                views(done@)
            } else {
                views(done@).push(cur@)
            },
            cur@.len() > 0 <==> (i > 0 && !is_blank(s@[i - 1])),
        decreases s.len() - i,
    {
        let c = s[i];
        let ghost pre = s@.take(i as int);
        assert(s@.take(i + 1).drop_last() =~= pre);
        assert(s@.take(i + 1).last() == c);
        assert(i > 0 ==> s@.take(i + 1)[i - 1] == s@[i - 1]);
        if is_blank_char(c) {
            if cur.len() > 0 {
                let ghost old_done = views(done@);
                done.push(cur);
                cur = Vec::new();
                assert(views(done@) =~= old_done.push(done@.last()@));
            }
        } else {
            let ghost old_done = views(done@);
            let ghost old_cur = cur@;
            cur.push(c);
            proof {
                if old_cur.len() == 0 {
                    assert(cur@ =~= seq![c]);
                } else {
                    let p = old_done.push(old_cur);
                    assert(p.last() == old_cur);
                    assert(p.len() - 1 == old_done.len());
                    assert(old_done.push(old_cur).update(old_done.len() as int, old_cur.push(c))
                        =~= old_done.push(cur@));
                }
            }
        }
        i = i + 1;
        assert(fields_of(s@.take(i as int)) == if cur@.len() == 0 {
            views(done@)
        } else {
            views(done@).push(cur@)
        });
    }
    assert(s@.take(s.len() as int) =~= s@);
    if cur.len() > 0 {
        let ghost old_done = views(done@);
        done.push(cur);
        assert(views(done@) =~= old_done.push(done@.last()@));
    }
    done
}

proof fn lemma_digits_value_monotone(s: Seq<char>, j: int)
    requires
        0 <= j <= s.len(),
        forall|i: int| 0 <= i < s.len() ==> is_digit(#[trigger] s[i]),
    ensures
        0 <= digits_value(s.take(j)) <= digits_value(s),
    decreases s.len(),
{
    if s.len() > 0 {
        let t = s.drop_last();
        assert forall|i: int| 0 <= i < t.len() implies is_digit(#[trigger] t[i]) by {
            assert(t[i] == s[i]);
        }
        assert(is_digit(s[s.len() - 1]));
        if j == s.len() {
            assert(s.take(j) =~= s);
            lemma_digits_value_monotone(t, j - 1);
            assert(t.take(j - 1) =~= t);
        } else {
            lemma_digits_value_monotone(t, j);
            assert(t.take(j) =~= s.take(j));
            lemma_digits_value_monotone(t, t.len() as int);
            assert(t.take(t.len() as int) =~= t);
        }
    } else {
        assert(s.take(j) =~= s);
    }
}

/// The characters of `w` but its first.
fn drop_first_char(w: &Vec<char>) -> (r: Vec<char>)
    requires
        w.len() > 0,
    ensures
        r@ == w@.drop_first(),
{
    let mut out: Vec<char> = Vec::new();
    let mut i: usize = 1;
    while i < w.len()
        invariant
            1 <= i <= w.len(),
            out@ == w@.subrange(1, i as int),
        decreases w.len() - i,
    {
        out.push(w[i]);
        i = i + 1;
        assert(out@ =~= w@.subrange(1, i as int));
    }
    assert(out@ =~= w@.drop_first());
    out
}

/// Reads a field that must hold a non-negative decimal integer, with an
/// optional leading `+`.
pub fn parse_decimal(w: &Vec<char>) -> (r: Option<i64>)
    ensures
        r == decimal_of(w@),
{
    if w.len() > 0 && w[0] == '+' {
        parse_digits(&drop_first_char(w))
    } else if w.len() > 1 && w[0] == '-' {
        assert(w@[0] == '-');
        assert(('-' as u32) < ('0' as u32));
        assert(!is_digit(w@[0]));
        assert(digits_of(w@) is None);
        assert(w@[0] != '+');
        let mut i: usize = 1;
        while i < w.len()
            invariant
                1 <= i <= w.len(),
                w@[0] == '-',
                digits_of(w@) is None,
                forall|j: int| 1 <= j < i ==> #[trigger] w@[j] == '0',
            decreases w.len() - i,
        {
            if w[i] != '0' {
                assert(w@[i as int] != '0');
                assert(!is_negative_zero(w@));
                return None;
            }
            i = i + 1;
        }
        Some(0)
    } else {
        parse_digits(w)
    }
}

/// Reads a run of decimal digits.
fn parse_digits(w: &Vec<char>) -> (r: Option<i64>)
    ensures
        r == digits_of(w@),
{
    if w.len() == 0 {
        return None;
    }
    let mut v: i64 = 0;
    let mut i: usize = 0;
    while i < w.len()
        invariant
            i <= w.len(),
            forall|k: int| 0 <= k < i ==> is_digit(#[trigger] w@[k]),
            v == digits_value(w@.take(i as int)),
            0 <= v,
        decreases w.len() - i,
    {
        let c = w[i];
        if !('0' <= c && c <= '9') {
            return None;
        }
        let d: i64 = (c as u32 - '0' as u32) as i64;
        assert(w@.take(i + 1).drop_last() =~= w@.take(i as int));
        if v > (i64::MAX - d) / 10 {
            proof {
                assert(v * 10 + d > i64::MAX) by (nonlinear_arith)
                    requires
                        v > (i64::MAX - d) / 10,
                        0 <= d <= 9,
                ;
                if forall|k: int| 0 <= k < w@.len() ==> is_digit(#[trigger] w@[k]) {
                    lemma_digits_value_monotone(w@, i + 1);
                }
            }
            return None;
        }
        assert(v * 10 + d <= i64::MAX) by (nonlinear_arith)
            requires
                v <= (i64::MAX - d) / 10,
                0 <= d <= 9,
        ;
        v = v * 10 + d;
        i = i + 1;
    }
    assert(w@.take(w.len() as int) =~= w@);
    Some(v)
}

/// A field that reads as a number reads as a non-negative one.
pub proof fn lemma_decimal_nonneg(s: Seq<char>)
    ensures
        decimal_of(s) matches Some(v) ==> v >= 0,
{
    let d = if s.len() > 0 && s[0] == '+' {
        s.drop_first()
    } else {
        s
    };
    if digits_of(d) is Some && !is_negative_zero(s) {
        lemma_digits_value_monotone(d, 0);
        assert(d.take(0) =~= Seq::<char>::empty());
    }
}

/// The digit that writes `d`, for `d` from zero to nine.
pub open spec fn digit_char(d: int) -> char {
    seq!['0', '1', '2', '3', '4', '5', '6', '7', '8', '9'][d]
}

/// The decimal digits of `n`, without leading zeros.
pub open spec fn decimal_text(n: nat) -> Seq<char>
    decreases n,
{
    if n < 10 {
        seq![digit_char(n as int)]
    } else {
        decimal_text(n / 10).push(digit_char((n % 10) as int))
    }
}

proof fn lemma_digit_char(d: int)
    requires
        0 <= d < 10,
    ensures
        is_digit(digit_char(d)),
        digit_char(d) as int - '0' as int == d,
{
    if d == 0 {
    } else if d == 1 {
    } else if d == 2 {
    } else if d == 3 {
    } else if d == 4 {
    } else if d == 5 {
    } else if d == 6 {
    } else if d == 7 {
    } else if d == 8 {
    } else {
    }
}

/// The digits of `n` read back as `n`.
pub proof fn lemma_decimal_text(n: nat)
    ensures
        decimal_text(n).len() > 0,
        forall|i: int| 0 <= i < decimal_text(n).len() ==> is_digit(#[trigger] decimal_text(n)[i]),
        digits_value(decimal_text(n)) == n,
    decreases n,
{
    if n < 10 {
        lemma_digit_char(n as int);
        assert(seq![digit_char(n as int)].drop_last() =~= Seq::<char>::empty());
        assert(digits_value(Seq::<char>::empty()) == 0);
        assert(digits_value(seq![digit_char(n as int)]) == 0 * 10 + (digit_char(n as int) as int
            - '0' as int));
    } else {
        lemma_decimal_text(n / 10);
        lemma_digit_char((n % 10) as int);
        let t = decimal_text(n / 10);
        assert(t.push(digit_char((n % 10) as int)).drop_last() =~= t);
        assert((n / 10) * 10 + n % 10 == n);
        assert(digits_value(decimal_text(n)) == digits_value(t) * 10 + (digit_char(
            (n % 10) as int,
        ) as int - '0' as int));
        assert forall|i: int| 0 <= i < decimal_text(n).len() implies is_digit(
            #[trigger] decimal_text(n)[i],
        ) by {
            if i < t.len() {
                assert(decimal_text(n)[i] == t[i]);
            }
        }
    }
}

/// A number that fits in an `i64`, written in decimal, reads back as itself.
pub proof fn lemma_decimal_round_trip(n: i64)
    requires
        n >= 0,
    ensures
        decimal_of(decimal_text(n as nat)) == Some(n),
{
    lemma_decimal_text(n as nat);
    assert(is_digit(decimal_text(n as nat)[0]));
}

proof fn lemma_fields_of_append_field(x: Seq<char>, w: Seq<char>)
    requires
        is_field(w),
        x.len() == 0 || is_blank(x.last()),
    ensures
        fields_of(x + w) == fields_of(x).push(w),
    decreases w.len(),
{
    let s = x + w;
    if w.len() == 1 {
        assert(s.drop_last() =~= x);
        assert(s.last() == w[0]);
        assert(seq![w[0]] =~= w);
        if s.len() > 1 {
            assert(s[s.len() - 2] == x.last());
        }
    } else {
        let w1 = w.drop_last();
        assert(is_field(w1)) by {
            assert forall|i: int| 0 <= i < w1.len() implies !is_blank(#[trigger] w1[i]) by {
                assert(w1[i] == w[i]);
            }
        }
        lemma_fields_of_append_field(x, w1);
        assert(s.drop_last() =~= x + w1);
        assert(s.last() == w.last());
        assert(s[s.len() - 2] == w[w.len() - 2]);
        assert(!is_blank(w[w.len() - 2]));
        assert(w1.push(w.last()) =~= w);
        let pre = fields_of(x).push(w1);
        assert(pre.update(pre.len() - 1, pre.last().push(w.last())) =~= fields_of(x).push(w));
    }
}

/// Fields written out with single spaces split back into the same fields.
pub proof fn lemma_fields_of_join(f: Seq<Seq<char>>)
    requires
        f.len() > 0,
        forall|i: int| 0 <= i < f.len() ==> is_field(#[trigger] f[i]),
    ensures
        fields_of(join_fields(f)) == f,
    decreases f.len(),
{
    if f.len() == 1 {
        assert(is_field(f[0]));
        lemma_fields_of_append_field(Seq::empty(), f[0]);
        assert(Seq::<char>::empty() + f[0] =~= f[0]);
        assert(fields_of(Seq::<char>::empty()).push(f[0]) =~= f);
    } else {
        let f1 = f.drop_last();
        assert forall|i: int| 0 <= i < f1.len() implies is_field(#[trigger] f1[i]) by {
            assert(f1[i] == f[i]);
        }
        lemma_fields_of_join(f1);
        let x = join_fields(f1) + seq![' '];
        assert(x.drop_last() =~= join_fields(f1));
        assert(fields_of(x) == f1);
        assert(is_field(f[f.len() - 1]));
        lemma_fields_of_append_field(x, f.last());
        assert(f1.push(f.last()) =~= f);
    }
}

/// The digit that writes `d`.
fn digit_of(d: u64) -> (r: char)
    requires
        d < 10,
    ensures
        r == digit_char(d as int),
{
    match d {
        0 => '0',
        1 => '1',
        2 => '2',
        3 => '3',
        4 => '4',
        5 => '5',
        6 => '6',
        7 => '7',
        8 => '8',
        _ => '9',
    }
}

/// Appends the decimal digits of `n` to `out`.
pub fn push_decimal(out: &mut String, n: u64)
    ensures
        final(out)@ == old(out)@ + decimal_text(n as nat),
    decreases n,
{
    if n >= 10 {
        push_decimal(out, n / 10);
    }
    push_char(out, digit_of(n % 10));
    assert(out@ =~= old(out)@ + decimal_text(n as nat));
}

} // verus!
