//! Character-level text operations: white space, trimming, splitting a
//! line into comma-separated columns and joining them back, decimal
//! numbers and left-aligned padding.
use vstd::prelude::*;

verus! {

/// The Unicode `White_Space` property, as used by `str::trim`.
pub open spec fn is_white_space(c: char) -> bool {
    let n = c as u32;
    ||| 0x9 <= n <= 0xd
    ||| n == 0x20
    ||| n == 0x85
    ||| n == 0xa0
    ||| n == 0x1680
    ||| 0x2000 <= n <= 0x200a
    ||| n == 0x2028
    ||| n == 0x2029
    ||| n == 0x202f
    ||| n == 0x205f
    ||| n == 0x3000
}

/// `s` with its leading white space removed.
pub open spec fn trim_start(s: Seq<char>) -> Seq<char>
    decreases s.len(),
{
    if s.len() > 0 && is_white_space(s[0]) {
        trim_start(s.drop_first())
    } else {
        s
    }
}

/// `s` with its trailing white space removed.
pub open spec fn trim_end(s: Seq<char>) -> Seq<char>
    decreases s.len(),
{
    if s.len() > 0 && is_white_space(s.last()) {
        trim_end(s.drop_last())
    } else {
        s
    }
}

/// `s` with leading and trailing white space removed.
pub open spec fn trim(s: Seq<char>) -> Seq<char> {
    trim_end(trim_start(s))
}

/// Whether `c` has the Unicode `White_Space` property.
pub fn white_space(c: char) -> (b: bool)
    ensures
        b == is_white_space(c),
{
    let n: u32 = c as u32;
    (0x9 <= n && n <= 0xd) || n == 0x20 || n == 0x85 || n == 0xa0 || n == 0x1680 || (0x2000 <= n
        && n <= 0x200a) || n == 0x2028 || n == 0x2029 || n == 0x202f || n == 0x205f || n == 0x3000
}

/// Removes leading and trailing white space.
pub fn trim_chars(s: &[char]) -> (r: Vec<char>)
    ensures
        r@ == trim(s@),
{
    let n = s.len();
    let mut i: usize = 0;
    assert(s@.subrange(0, n as int) =~= s@);
    while i < n && white_space(s[i])
        invariant
            n == s@.len(),
            i <= n,
            trim_start(s@) == trim_start(s@.subrange(i as int, n as int)),
        decreases n - i,
    {
        assert(s@.subrange(i as int, n as int).drop_first() =~= s@.subrange(i + 1, n as int));
        i = i + 1;
    }
    assert(trim_start(s@) == s@.subrange(i as int, n as int));
    let mut j: usize = n;
    while j > i && white_space(s[j - 1])
        invariant
            n == s@.len(),
            i <= j <= n,
            trim(s@) == trim_end(s@.subrange(i as int, j as int)),
        decreases j,
    {
        assert(s@.subrange(i as int, j as int).drop_last() =~= s@.subrange(i as int, j - 1));
        j = j - 1;
    }
    let mut r: Vec<char> = Vec::new();
    let mut k: usize = i;
    while k < j
        invariant
            i <= k <= j <= n,
            n == s@.len(),
            r@ == s@.subrange(i as int, k as int),
        decreases j - k,
    {
        r.push(s[k]);
        assert(r@ =~= s@.subrange(i as int, k + 1));
        k = k + 1;
    }
    r
}


/// The character sequences held by a vector of character vectors.
pub open spec fn texts(v: Seq<Vec<char>>) -> Seq<Seq<char>> {
    Seq::new(v.len(), |i: int| v[i]@)
}

/// Whether `s` holds no comma.
pub open spec fn comma_free(s: Seq<char>) -> bool {
    !s.contains(',')
}

/// The columns of a line split at every comma, as `str::split(',')` gives
/// them: a line with `k` commas has `k + 1` columns, the empty line one
/// empty column.
pub open spec fn split_commas(s: Seq<char>) -> Seq<Seq<char>>
    decreases s.len(),
{
    if s.len() == 0 {
        seq![Seq::<char>::empty()]
    } else {
        let rest = split_commas(s.drop_last());
        if s.last() == ',' {
            rest.push(Seq::<char>::empty())
        } else {
            rest.update(rest.len() - 1, rest.last().push(s.last()))
        }
    }
}

/// The columns joined into one line with a comma between each two.
pub open spec fn join_commas(cols: Seq<Seq<char>>) -> Seq<char>
    decreases cols.len(),
{
    if cols.len() == 0 {
        Seq::<char>::empty()
    } else if cols.len() == 1 {
        cols[0]
    } else {
        join_commas(cols.drop_last()) + seq![','] + cols.last()
    }
}

/// Splitting a line gives at least one column.
pub proof fn lemma_split_nonempty(s: Seq<char>)
    ensures
        split_commas(s).len() >= 1,
    decreases s.len(),
{
    if s.len() > 0 {
        lemma_split_nonempty(s.drop_last());
    }
}

/// No column of a split line holds a comma.
pub proof fn lemma_split_comma_free(s: Seq<char>)
    ensures
        forall|k: int| 0 <= k < split_commas(s).len() ==> comma_free(#[trigger] split_commas(s)[k]),
    decreases s.len(),
{
    if s.len() > 0 {
        let p = s.drop_last();
        lemma_split_comma_free(p);
        lemma_split_nonempty(p);
        let rest = split_commas(p);
        if s.last() != ',' {
            let l = rest.last().push(s.last());
            assert forall|c: char| l.contains(c) implies c != ',' by {
                let j = choose|j: int| 0 <= j < l.len() && l[j] == c;
                if j < l.len() - 1 {
                    assert(rest.last().contains(c));
                }
            }
        }
        assert forall|k: int| 0 <= k < split_commas(s).len() implies comma_free(
            #[trigger] split_commas(s)[k],
        ) by {
            if k < rest.len() - 1 {
                assert(split_commas(s)[k] == rest[k]);
            }
        }
    }
}

/// Appending comma-free text to a line extends its last column.
proof fn lemma_split_append_plain(x: Seq<char>, c: Seq<char>)
    requires
        comma_free(c),
    ensures
        split_commas(x + c) == split_commas(x).update(
            split_commas(x).len() - 1,
            split_commas(x).last() + c,
        ),
    decreases c.len(),
{
    lemma_split_nonempty(x);
    let sx = split_commas(x);
    if c.len() == 0 {
        assert(x + c =~= x);
        assert(sx.last() + c =~= sx.last());
        assert(sx.update(sx.len() - 1, sx.last() + c) =~= sx);
    } else {
        let c1 = c.drop_last();
        assert(comma_free(c1)) by {
            assert forall|ch: char| c1.contains(ch) implies ch != ',' by {
                let j = choose|j: int| 0 <= j < c1.len() && c1[j] == ch;
                assert(c[j] == ch);
            }
        }
        assert(c.last() != ',') by {
            assert(c.contains(c.last()));
        }
        lemma_split_append_plain(x, c1);
        assert((x + c).drop_last() =~= x + c1);
        assert((x + c).last() == c.last());
        assert((sx.last() + c1).push(c.last()) =~= sx.last() + c);
        assert(split_commas(x + c) =~= sx.update(sx.len() - 1, sx.last() + c));
    }
}

/// Splitting a joined row gives back its columns, when none of them
/// holds a comma.
pub proof fn lemma_split_join(cols: Seq<Seq<char>>)
    requires
        cols.len() >= 1,
        forall|k: int| 0 <= k < cols.len() ==> comma_free(#[trigger] cols[k]),
    ensures
        split_commas(join_commas(cols)) == cols,
    decreases cols.len(),
{
    if cols.len() == 1 {
        let e = Seq::<char>::empty();
        assert(comma_free(cols[0]));
        lemma_split_append_plain(e, cols[0]);
        assert(e + cols[0] =~= cols[0]);
        assert(split_commas(e) == seq![e]);
        assert(seq![e].update(0, e + cols[0]) =~= cols);
    } else {
        let init = cols.drop_last();
        lemma_split_join(init);
        let x = join_commas(init).push(',');
        assert(comma_free(cols.last()));
        lemma_split_append_plain(x, cols.last());
        assert(x.drop_last() =~= join_commas(init));
        assert(split_commas(x) == init.push(Seq::<char>::empty()));
        assert(join_commas(cols) =~= x + cols.last());
        assert(Seq::<char>::empty() + cols.last() =~= cols.last());
        assert(init.push(Seq::<char>::empty()).update(init.len() as int, Seq::<char>::empty() + cols.last()) =~= cols);
    }
}

/// Joining extends the last column's text at the end of the line.
proof fn lemma_join_extend_last(cols: Seq<Seq<char>>, t: Seq<char>)
    requires
        cols.len() >= 1,
    ensures
        join_commas(cols.update(cols.len() - 1, cols.last() + t)) == join_commas(cols) + t,
{
    let u = cols.update(cols.len() - 1, cols.last() + t);
    if cols.len() > 1 {
        assert(u.drop_last() =~= cols.drop_last());
        assert(join_commas(u) =~= join_commas(cols) + t);
    }
}

/// A joined row begins with its first column.
pub proof fn lemma_join_starts_with_first(cols: Seq<Seq<char>>)
    requires
        cols.len() >= 1,
    ensures
        join_commas(cols).len() >= cols[0].len(),
        forall|i: int| 0 <= i < cols[0].len() ==> join_commas(cols)[i] == cols[0][i],
    decreases cols.len(),
{
    if cols.len() > 1 {
        lemma_join_starts_with_first(cols.drop_last());
        assert(cols.drop_last()[0] == cols[0]);
    }
}

/// Joining the columns of a split line gives back the line.
pub proof fn lemma_join_split(s: Seq<char>)
    ensures
        join_commas(split_commas(s)) == s,
    decreases s.len(),
{
    if s.len() == 0 {
        assert(join_commas(split_commas(s)) =~= s);
    } else {
        let p = s.drop_last();
        lemma_join_split(p);
        lemma_split_nonempty(p);
        let rest = split_commas(p);
        if s.last() == ',' {
            let r2 = rest.push(Seq::<char>::empty());
            assert(r2.drop_last() =~= rest);
            assert(join_commas(r2) =~= s);
        } else {
            lemma_join_extend_last(rest, seq![s.last()]);
            assert(rest.last().push(s.last()) =~= rest.last() + seq![s.last()]);
            assert(p + seq![s.last()] =~= s);
        }
    }
}

/// Splits a line into its comma-separated columns.
pub fn split_columns(line: &[char]) -> (cols: Vec<Vec<char>>)
    ensures
        texts(cols@) == split_commas(line@),
{
    let mut cols: Vec<Vec<char>> = Vec::new();
    let mut cur: Vec<char> = Vec::new();
    let n = line.len();
    assert(line@.take(0) =~= Seq::<char>::empty());
    assert(texts(cols@).push(cur@) =~= seq![Seq::<char>::empty()]);
    for i in 0..n
        invariant
            n == line@.len(),
            texts(cols@).push(cur@) == split_commas(line@.take(i as int)),
    {
        let ghost before = texts(cols@);
        assert(line@.take(i + 1).drop_last() =~= line@.take(i as int));
        assert(line@.take(i + 1).last() == line@[i as int]);
        let c = line[i];
        if c == ',' {
            let ghost old_cur = cur@;
            cols.push(cur);
            cur = Vec::new();
            assert(texts(cols@) =~= before.push(old_cur));
        } else {
            cur.push(c);
        }
        assert(texts(cols@).push(cur@) =~= split_commas(line@.take(i + 1)));
    }
    let ghost before = texts(cols@);
    cols.push(cur);
    assert(line@.take(n as int) =~= line@);
    assert(texts(cols@) =~= before.push(cur@));
    cols
}

/// Appends the characters of `s` to `out`.
pub fn append_chars(out: &mut Vec<char>, s: &[char])
    ensures
        final(out)@ == old(out)@ + s@,
{
    let n = s.len();
    for i in 0..n
        invariant
            n == s@.len(),
            out@ == old(out)@ + s@.take(i as int),
    {
        out.push(s[i]);
        assert(out@ =~= old(out)@ + s@.take(i + 1));
    }
    assert(s@.take(n as int) =~= s@);
}

/// Joins columns into one line, with a comma between each two.
pub fn join_columns(cols: &Vec<Vec<char>>) -> (line: Vec<char>)
    ensures
        line@ == join_commas(texts(cols@)),
{
    let mut line: Vec<char> = Vec::new();
    let n = cols.len();
    assert(texts(cols@).take(0) =~= Seq::<Seq<char>>::empty());
    for i in 0..n
        invariant
            n == cols@.len(),
            line@ == join_commas(texts(cols@).take(i as int)),
    {
        let ghost t = texts(cols@).take(i + 1);
        assert(t.drop_last() =~= texts(cols@).take(i as int));
        if i > 0 {
            line.push(',');
        }
        append_chars(&mut line, cols[i].as_slice());
        if i == 0 {
            assert(line@ =~= t[0]);
        } else {
            assert(line@ =~= join_commas(t));
        }
    }
    assert(texts(cols@).take(n as int) =~= texts(cols@));
    line
}


/// The number of leading white-space characters that `trim_start` drops.
proof fn trim_start_index(s: Seq<char>) -> (k: int)
    ensures
        0 <= k <= s.len(),
        trim_start(s) == s.subrange(k, s.len() as int),
        forall|i: int| 0 <= i < k ==> is_white_space(#[trigger] s[i]),
        k == s.len() || !is_white_space(s[k]),
    decreases s.len(),
{
    if s.len() > 0 && is_white_space(s[0]) {
        let k1 = trim_start_index(s.drop_first());
        assert forall|i: int| 0 <= i < k1 + 1 implies is_white_space(#[trigger] s[i]) by {
            if i > 0 {
                assert(s[i] == s.drop_first()[i - 1]);
            }
        }
        assert(s.drop_first().subrange(k1, s.len() - 1) =~= s.subrange(k1 + 1, s.len() as int));
        k1 + 1
    } else {
        assert(s.subrange(0, s.len() as int) =~= s);
        0
    }
}

/// The length of what `trim_end` keeps.
proof fn trim_end_index(s: Seq<char>) -> (j: int)
    ensures
        0 <= j <= s.len(),
        trim_end(s) == s.subrange(0, j),
        forall|i: int| j <= i < s.len() ==> is_white_space(#[trigger] s[i]),
        j == 0 || !is_white_space(s[j - 1]),
    decreases s.len(),
{
    if s.len() > 0 && is_white_space(s.last()) {
        let j1 = trim_end_index(s.drop_last());
        assert(s.drop_last().subrange(0, j1) =~= s.subrange(0, j1));
        assert forall|i: int| j1 <= i < s.len() implies is_white_space(#[trigger] s[i]) by {
            if i < s.len() - 1 {
                assert(s[i] == s.drop_last()[i]);
            }
        }
        j1
    } else {
        assert(s.subrange(0, s.len() as int) =~= s);
        s.len() as int
    }
}

/// Trimming leaves a text without white space at either end.
pub proof fn lemma_trim_ends(s: Seq<char>)
    ensures
        trim(s).len() == 0 || (!is_white_space(trim(s)[0]) && !is_white_space(trim(s).last())),
{
    let k = trim_start_index(s);
    let u = trim_start(s);
    let j = trim_end_index(u);
    if j > 0 {
        assert(trim(s)[0] == u[0]);
        assert(u[0] == s[k]);
    }
}

/// A text without white space at either end is its own trim.
pub proof fn lemma_trim_fixed(s: Seq<char>)
    requires
        s.len() == 0 || (!is_white_space(s[0]) && !is_white_space(s.last())),
    ensures
        trim(s) == s,
{
}

/// Trimming twice is trimming once.
pub proof fn lemma_trim_idempotent(s: Seq<char>)
    ensures
        trim(trim(s)) == trim(s),
{
    lemma_trim_ends(s);
    lemma_trim_fixed(trim(s));
}

/// Trimming keeps a contiguous part of the text: what it keeps comes
/// from the text, and a text whose first character is not white space
/// keeps at least that character.
pub proof fn lemma_trim_part(s: Seq<char>)
    ensures
        exists|a: int, b: int| 0 <= a <= b <= s.len() && trim(s) == s.subrange(a, b),
        s.len() > 0 && !is_white_space(s[0]) ==> trim(s).len() > 0,
{
    let k = trim_start_index(s);
    let u = trim_start(s);
    let j = trim_end_index(u);
    assert(trim(s) =~= s.subrange(k, k + j));
    if s.len() > 0 && !is_white_space(s[0]) {
        assert(k == 0);
        assert(u[0] == s[0]);
        assert(j > 0);
    }
}

/// Whether two texts are equal.
pub fn same_text(a: &[char], b: &[char]) -> (r: bool)
    ensures
        r == (a@ == b@),
{
    if a.len() != b.len() {
        return false;
    }
    let n = a.len();
    for i in 0..n
        invariant
            n == a@.len(),
            n == b@.len(),
            forall|k: int| 0 <= k < i ==> a@[k] == b@[k],
    {
        if a[i] != b[i] {
            return false;
        }
    }
    assert(a@ =~= b@);
    true
}

/// Whether `c` is one of the ASCII digits `0` to `9`.
pub open spec fn is_digit(c: char) -> bool {
    48 <= (c as u32) <= 57
}

/// The value of an ASCII digit.
pub open spec fn digit_value(c: char) -> nat {
    ((c as u32) - 48) as nat
}

/// The ASCII digit for a value below ten.
pub open spec fn digit_char(d: nat) -> char {
    if d == 0 {
        '0'
    } else if d == 1 {
        '1'
    } else if d == 2 {
        '2'
    } else if d == 3 {
        '3'
    } else if d == 4 {
        '4'
    } else if d == 5 {
        '5'
    } else if d == 6 {
        '6'
    } else if d == 7 {
        '7'
    } else if d == 8 {
        '8'
    } else {
        '9'
    }
}

/// Whether every character of `s` is an ASCII digit.
pub open spec fn all_digits(s: Seq<char>) -> bool {
    forall|i: int| 0 <= i < s.len() ==> is_digit(#[trigger] s[i])
}

/// The value of a sequence of decimal digits, most significant first.
pub open spec fn digits_value(s: Seq<char>) -> nat
    decreases s.len(),
{
    if s.len() == 0 {
        0
    } else {
        digits_value(s.drop_last()) * 10 + digit_value(s.last())
    }
}

/// The digits of an unsigned number in text: a leading `+`, if there is
/// one, is not part of them.
pub open spec fn unsigned_digits(s: Seq<char>) -> Seq<char> {
    if s.len() > 0 && s[0] == '+' {
        s.drop_first()
    } else {
        s
    }
}

/// An unsigned decimal number read as `str::parse` reads one into an
/// unsigned integer type whose largest value is `limit`: an optional `+`,
/// then one or more ASCII digits, and nothing else; a value above `limit`
/// is refused.
pub open spec fn parse_unsigned_spec(s: Seq<char>, limit: nat) -> Option<nat> {
    let d = unsigned_digits(s);
    if d.len() > 0 && all_digits(d) && digits_value(d) <= limit {
        Some(digits_value(d))
    } else {
        None
    }
}

/// A `u32` read from text, as `str::parse::<u32>` reads it.
pub open spec fn parse_u32_spec(s: Seq<char>) -> Option<nat> {
    parse_unsigned_spec(s, u32::MAX as nat)
}

/// Whether each number of `s` is below every later one.
pub open spec fn strictly_increasing(s: Seq<nat>) -> bool {
    forall|i: int, j: int| 0 <= i < j < s.len() ==> s[i] < s[j]
}

/// The decimal digits of `n`, without leading zeros.
pub open spec fn decimal(n: nat) -> Seq<char>
    decreases n,
{
    if n < 10 {
        seq![digit_char(n)]
    } else {
        decimal(n / 10).push(digit_char(n % 10))
    }
}

/// A prefix of digits is worth no more than the whole.
proof fn lemma_digits_value_prefix(s: Seq<char>, i: int)
    requires
        0 <= i <= s.len(),
    ensures
        digits_value(s.take(i)) <= digits_value(s),
    decreases s.len() - i,
{
    if i < s.len() {
        lemma_digits_value_prefix(s, i + 1);
        assert(s.take(i + 1).drop_last() =~= s.take(i));
    } else {
        assert(s.take(i) =~= s);
    }
}

/// The decimal digits of a number are digits and are worth the number.
pub proof fn lemma_decimal(n: nat)
    ensures
        decimal(n).len() > 0,
        all_digits(decimal(n)),
        digits_value(decimal(n)) == n,
    decreases n,
{
    if n < 10 {
        lemma_digit_char(n);
        assert(decimal(n).drop_last() =~= Seq::<char>::empty());
        assert(digits_value(Seq::<char>::empty()) == 0);
        assert(decimal(n).last() == digit_char(n));
        assert(digits_value(decimal(n)) == n);
    } else {
        lemma_digit_char(n % 10);
        lemma_decimal(n / 10);
        let d = decimal(n);
        assert(d.drop_last() =~= decimal(n / 10));
        assert forall|i: int| 0 <= i < d.len() implies is_digit(#[trigger] d[i]) by {
            if i < d.len() - 1 {
                assert(d[i] == decimal(n / 10)[i]);
            }
        }
        assert(d.last() == digit_char(n % 10));
        assert(digits_value(d) == digits_value(decimal(n / 10)) * 10 + n % 10);
        assert(n == (n / 10) * 10 + n % 10);
        assert(digits_value(decimal(n)) == n);
    }
}

proof fn lemma_digit_char(d: nat)
    requires
        d < 10,
    ensures
        is_digit(digit_char(d)),
        digit_value(digit_char(d)) == d,
{
    assert('0' as u32 == 48);
}

/// Reading back the decimal digits of a number gives the number.
pub proof fn lemma_parse_decimal(n: nat, limit: nat)
    requires
        n <= limit,
    ensures
        parse_unsigned_spec(decimal(n), limit) == Some(n),
{
    lemma_decimal(n);
    assert(is_digit(decimal(n)[0]));
}

/// What a number read from text looks like: nothing, a lone `+`, or any
/// character other than a digit (but for one leading `+`) gives no number;
/// a number is never above the limit; and a `+` in front of the digits of
/// a number still reads as that number.
pub proof fn lemma_parse_shape(s: Seq<char>, limit: nat, n: nat)
    ensures
        parse_unsigned_spec(Seq::<char>::empty(), limit) is None,
        parse_unsigned_spec(seq!['+'], limit) is None,
        (exists|i: int| 0 <= i < s.len() && !is_digit(#[trigger] s[i]) && !(i == 0 && s[i] == '+'))
            ==> parse_unsigned_spec(s, limit) is None,
        parse_unsigned_spec(s, limit) matches Some(v) ==> v <= limit,
        n <= limit ==> parse_unsigned_spec(seq!['+'] + decimal(n), limit) == Some(n),
{
    assert(seq!['+'].drop_first() =~= Seq::<char>::empty());
    if exists|i: int| 0 <= i < s.len() && !is_digit(#[trigger] s[i]) && !(i == 0 && s[i] == '+') {
        let i = choose|i: int| 0 <= i < s.len() && !is_digit(#[trigger] s[i]) && !(i == 0 && s[i] == '+');
        let d = unsigned_digits(s);
        if s.len() > 0 && s[0] == '+' {
            assert(d[i - 1] == s[i]);
        } else {
            assert(d[i] == s[i]);
        }
    }
    if n <= limit {
        lemma_parse_decimal(n, limit);
        lemma_decimal(n);
        let t = seq!['+'] + decimal(n);
        assert(t[0] == '+');
        assert(t.drop_first() =~= decimal(n));
        assert(unsigned_digits(t) == decimal(n));
    }
}

/// The decimal digits of a number hold no comma and no white space at
/// either end.
pub proof fn lemma_decimal_plain(n: nat)
    ensures
        comma_free(decimal(n)),
        trim(decimal(n)) == decimal(n),
{
    lemma_decimal(n);
    let d = decimal(n);
    assert forall|c: char| d.contains(c) implies c != ',' by {
        let i = choose|i: int| 0 <= i < d.len() && d[i] == c;
        assert(is_digit(d[i]));
    }
    assert(is_digit(d[0]));
    assert(is_digit(d.last()));
    lemma_trim_fixed(d);
}

/// The ASCII digit for a value below ten.
fn digit_to_char(d: u64) -> (c: char)
    requires
        d < 10,
    ensures
        c == digit_char(d as nat),
{
    match d {
        0 => '0',
        1 => '1',
        2 => '2',
        3 => '3',
        4 => '4',
        5 => '5',
        6 => '6',
        7 => '7',
        8 => '8',
        _ => '9',
    }
}

/// Writes `n` in decimal, as `format!("{}", n)` does.
pub fn decimal_chars(n: u64) -> (r: Vec<char>)
    ensures
        r@ == decimal(n as nat),
    decreases n,
{
    if n < 10 {
        let mut r: Vec<char> = Vec::new();
        r.push(digit_to_char(n));
        assert(r@ =~= decimal(n as nat));
        r
    } else {
        let mut r = decimal_chars(n / 10);
        r.push(digit_to_char(n % 10));
        r
    }
}

/// Reads an unsigned decimal number whose value must not exceed `limit`,
/// as `str::parse` does for an unsigned integer type with that largest
/// value.
pub fn parse_unsigned(s: &[char], limit: u64) -> (r: Option<u64>)
    ensures
        match r {
            Some(v) => parse_unsigned_spec(s@, limit as nat) == Some(v as nat),
            None => parse_unsigned_spec(s@, limit as nat) is None,
        },
{
    let n = s.len();
    let start: usize = if n > 0 && s[0] == '+' { 1 } else { 0 };
    let ghost d = unsigned_digits(s@);
    assert(d =~= s@.subrange(start as int, n as int));
    if start == n {
        return None;
    }
    let mut acc: u64 = 0;
    let mut i: usize = start;
    assert(d.take(0) =~= Seq::<char>::empty());
    while i < n
        invariant
            start <= i <= n,
            n == s@.len(),
            d == s@.subrange(start as int, n as int),
            d == unsigned_digits(s@),
            acc <= limit,
            acc == digits_value(d.take(i - start)),
            all_digits(d.take(i - start)),
        decreases n - i,
    {
        let c = s[i];
        let ghost t = d.take(i - start + 1);
        assert(t.drop_last() =~= d.take(i - start));
        assert(t.last() == c);
        let code: u32 = #[verifier::truncate] (c as u32);
        if code < 48 || code > 57 {
            assert(!is_digit(d[i - start]));
            assert(!all_digits(d));
            return None;
        }
        let dv: u64 = (code - 48) as u64;
        if dv > limit || acc > (limit - dv) / 10 {
            assert(acc * 10 + dv > limit) by (nonlinear_arith)
                requires
                    dv > limit || acc > (limit - dv) / 10,
            ;
            proof {
                if all_digits(d) {
                    lemma_digits_value_prefix(d, i - start + 1);
                    assert(digit_value(c) == dv);
                    assert(digits_value(t) == acc * 10 + dv);
                    assert(digits_value(d) > limit);
                }
            }
            return None;
        }
        assert(acc * 10 + dv <= limit) by (nonlinear_arith)
            requires
                dv <= limit,
                acc <= (limit - dv) / 10,
        ;
        acc = acc * 10 + dv;
        assert(all_digits(t)) by {
            assert forall|k: int| 0 <= k < t.len() implies is_digit(#[trigger] t[k]) by {
                if k < t.len() - 1 {
                    assert(t[k] == d.take(i - start)[k]);
                }
            }
        }
        i = i + 1;
    }
    assert(d.take(n - start) =~= d);
    Some(acc)
}

/// Reads a `u32` as `str::parse::<u32>` does.
pub fn parse_u32(s: &[char]) -> (r: Option<u32>)
    ensures
        match r {
            Some(v) => parse_u32_spec(s@) == Some(v as nat),
            None => parse_u32_spec(s@) is None,
        },
{
    match parse_unsigned(s, 0xffff_ffff) {
        Some(v) => Some(v as u32),
        None => None,
    }
}


/// `s` followed by spaces up to `width` characters, as the `{:<width}`
/// format does; a longer `s` is left as it is.
pub open spec fn pad_right(s: Seq<char>, width: nat) -> Seq<char> {
    if s.len() >= width {
        s
    } else {
        s + Seq::new((width - s.len()) as nat, |_i: int| ' ')
    }
}

/// Padding keeps the text in front and adds only spaces, up to the width:
/// the result has `width` characters, or those of `s` where `s` is longer.
pub proof fn lemma_pad_right(s: Seq<char>, width: nat)
    ensures
        pad_right(s, width).len() == if s.len() >= width {
            s.len()
        } else {
            width
        },
        pad_right(s, width).subrange(0, s.len() as int) == s,
        forall|i: int|
            s.len() <= i < pad_right(s, width).len() ==> #[trigger] pad_right(s, width)[i] == ' ',
{
    assert(pad_right(s, width).subrange(0, s.len() as int) =~= s);
}

/// Pads `s` on the right with spaces up to `width` characters.
pub fn pad_right_chars(s: &[char], width: usize) -> (r: Vec<char>)
    ensures
        r@ == pad_right(s@, width as nat),
{
    let mut r: Vec<char> = Vec::new();
    append_chars(&mut r, s);
    assert(r@ =~= s@);
    let n = s.len();
    if n >= width {
        return r;
    }
    let mut k: usize = n;
    while k < width
        invariant
            n == s@.len(),
            n <= k <= width,
            r@ == s@ + Seq::new((k - n) as nat, |_i: int| ' '),
        decreases width - k,
    {
        r.push(' ');
        k = k + 1;
        assert(r@ =~= s@ + Seq::new((k - n) as nat, |_i: int| ' '));
    }
    r
}

} // verus!
