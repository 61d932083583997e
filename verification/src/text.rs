//! Character-level helpers shared by the parsers and formatters.

use vstd::prelude::*;

verus! {

/// `String::push` appends one character.
pub assume_specification[ std::string::String::push ](s: &mut String, ch: char)
    ensures
        final(s)@ == old(s)@.push(ch),
;

/// Bytes read one for one as characters (the meaning of ASCII bytes).
pub open spec fn ascii_chars(b: Seq<u8>) -> Seq<char> {
    Seq::new(b.len(), |i: int| b[i] as char)
}

/// Every byte is below 0x80.
pub open spec fn all_ascii(b: Seq<u8>) -> bool {
    forall|i: int| 0 <= i < b.len() ==> b[i] < 0x80
}

/// What `String::from_utf8_lossy` makes of a byte sequence.
pub uninterp spec fn lossy_utf8(bytes: Seq<u8>) -> Seq<char>;

/// Decodes bytes with `String::from_utf8_lossy` (invalid sequences become
/// U+FFFD). Claimed: the result is `lossy_utf8` of the bytes, and ASCII
/// bytes, being valid UTF-8, come back one character per byte.
#[verifier::external_body]
pub fn utf8_lossy(bytes: &[u8]) -> (res: String)
    ensures
        res@ == lossy_utf8(bytes@),
        all_ascii(bytes@) ==> res@ == ascii_chars(bytes@),
{
    String::from_utf8_lossy(bytes).into_owned()
}

/// The characters of a string slice, collected into a vector.
pub fn chars_of(s: &str) -> (res: Vec<char>)
    ensures
        res@ == s@,
{
    let n = s.unicode_len();
    let mut res: Vec<char> = Vec::new();
    let mut i: usize = 0;
    while i < n
        invariant
            n == s@.len(),
            i <= n,
            res@ == s@.take(i as int),
        decreases n - i,
    {
        let c = s.get_char(i);
        res.push(c);
        i = i + 1;
        assert(res@ =~= s@.take(i as int));
    }
    assert(res@ =~= s@);
    res
}

/// Appends a sequence of characters to a string.
pub fn push_chars(s: &mut String, chars: &Vec<char>)
    ensures
        final(s)@ == old(s)@ + chars@,
{
    let mut i: usize = 0;
    let ghost start = s@;
    while i < chars.len()
        invariant
            i <= chars@.len(),
            s@ == start + chars@.take(i as int),
        decreases chars@.len() - i,
    {
        s.push(chars[i]);
        i = i + 1;
        assert(s@ =~= start + chars@.take(i as int));
    }
    assert(chars@.take(chars@.len() as int) =~= chars@);
}

/// A string holding the given characters.
pub fn string_from_chars(chars: &Vec<char>) -> (res: String)
    ensures
        res@ == chars@,
{
    let mut s = String::new();
    push_chars(&mut s, chars);
    assert(s@ =~= chars@);
    s
}



/// The decimal digit character for `n` below 10.
pub open spec fn digit_char(n: int) -> char {
    (48 + n) as char
}

/// Decimal representation of `n`, without leading zeros.
pub open spec fn spec_decimal(n: nat) -> Seq<char>
    decreases n,
{
    if n < 10 {
        seq![digit_char(n as int)]
    } else {
        spec_decimal(n / 10).push(digit_char((n % 10) as int))
    }
}

/// `s` preceded by as many zeros as make it `width` characters long.
pub open spec fn zero_padded(s: Seq<char>, width: nat) -> Seq<char> {
    if s.len() >= width {
        s
    } else {
        Seq::new((width - s.len()) as nat, |i: int| '0') + s
    }
}

/// Appends the decimal representation of `n`.
pub fn push_decimal(out: &mut Vec<char>, n: u64)
    ensures
        final(out)@ == old(out)@ + spec_decimal(n as nat),
    decreases n,
{
    if n >= 10 {
        push_decimal(out, n / 10);
    }
    let d = (n % 10) as u8;
    out.push((48 + d) as char);
    assert(final(out)@ =~= old(out)@ + spec_decimal(n as nat)) by {
        if n >= 10 {
            assert(spec_decimal(n as nat) == spec_decimal((n / 10) as nat).push(digit_char((n % 10) as int)));
        }
    }
}

/// Length of the decimal representation: one digit per power of ten.
pub proof fn lemma_decimal_len(n: nat)
    ensures
        spec_decimal(n).len() >= 1,
        n < 10 ==> spec_decimal(n).len() == 1,
        10 <= n < 100 ==> spec_decimal(n).len() == 2,
        100 <= n < 1000 ==> spec_decimal(n).len() == 3,
        n >= 1000 ==> spec_decimal(n).len() >= 4,
    decreases n,
{
    if n >= 10 {
        lemma_decimal_len(n / 10);
    }
}

/// Appends the decimal representation of `n`, with leading zeros up to
/// `width` characters.
pub fn push_zero_padded(out: &mut Vec<char>, n: u64, width: usize)
    requires
        width <= 4,
    ensures
        final(out)@ == old(out)@ + zero_padded(spec_decimal(n as nat), width as nat),
{
    let ghost digits = spec_decimal(n as nat);
    proof {
        lemma_decimal_len(n as nat);
    }
    let len: usize = if n < 10 { 1 } else if n < 100 { 2 } else if n < 1000 { 3 } else { 4 };
    let ghost start = out@;
    let mut k: usize = len;
    while k < width
        invariant
            len <= k <= width || (width < len && k == len),
            len <= 4,
            width <= 4,
            out@ == start + Seq::new((k - len) as nat, |i: int| '0'),
        decreases width - k,
    {
        out.push('0');
        k = k + 1;
        assert(out@ =~= start + Seq::new((k - len) as nat, |i: int| '0'));
    }
    push_decimal(out, n);
    assert(final(out)@ =~= start + zero_padded(digits, width as nat)) by {
        if digits.len() >= width {
            assert(Seq::new((k - len) as nat, |i: int| '0') =~= Seq::<char>::empty());
        } else {
            assert(digits.len() == len);
        }
    }
}

/// `raw / 10` written as the shortest decimal: no fraction when it is whole.
pub open spec fn spec_tenths(raw: nat) -> Seq<char> {
    spec_decimal(raw / 10) + if raw % 10 == 0 {
        Seq::empty()
    } else {
        seq!['.', digit_char((raw % 10) as int)]
    }
}

/// `raw / 100` written as the shortest decimal: trailing zeros of the
/// fraction dropped, no fraction when it is whole.
pub open spec fn spec_hundredths(raw: nat) -> Seq<char> {
    let f = raw % 100;
    spec_decimal(raw / 100) + if f == 0 {
        Seq::empty()
    } else if f % 10 == 0 {
        seq!['.', digit_char((f / 10) as int)]
    } else {
        seq!['.', digit_char((f / 10) as int), digit_char((f % 10) as int)]
    }
}

/// A signed number of hundredths, as `spec_hundredths` with a minus sign
/// for negative values.
pub open spec fn spec_signed_hundredths(raw: int) -> Seq<char> {
    if raw < 0 {
        seq!['-'] + spec_hundredths((-raw) as nat)
    } else {
        spec_hundredths(raw as nat)
    }
}

/// Appends `raw / 10` as `spec_tenths` writes it.
pub fn push_tenths(out: &mut Vec<char>, raw: u64)
    ensures
        final(out)@ == old(out)@ + spec_tenths(raw as nat),
{
    push_decimal(out, raw / 10);
    let f = (raw % 10) as u8;
    if f != 0 {
        out.push('.');
        out.push((48 + f) as char);
    }
    assert(final(out)@ =~= old(out)@ + spec_tenths(raw as nat));
}

/// Appends `raw / 100` as `spec_hundredths` writes it.
pub fn push_hundredths(out: &mut Vec<char>, raw: u64)
    ensures
        final(out)@ == old(out)@ + spec_hundredths(raw as nat),
{
    push_decimal(out, raw / 100);
    let f = (raw % 100) as u8;
    if f != 0 {
        out.push('.');
        out.push((48 + f / 10) as char);
        if f % 10 != 0 {
            out.push((48 + f % 10) as char);
        }
    }
    assert(final(out)@ =~= old(out)@ + spec_hundredths(raw as nat));
}

/// Appends a signed number of hundredths as `spec_signed_hundredths` writes it.
pub fn push_signed_hundredths(out: &mut Vec<char>, raw: i64)
    requires
        raw > i64::MIN,
    ensures
        final(out)@ == old(out)@ + spec_signed_hundredths(raw as int),
{
    if raw < 0 {
        out.push('-');
        push_hundredths(out, (-raw) as u64);
    } else {
        push_hundredths(out, raw as u64);
    }
    assert(final(out)@ =~= old(out)@ + spec_signed_hundredths(raw as int));
}

/// Appends the characters of a string slice.
pub fn push_str_chars(out: &mut Vec<char>, s: &str)
    ensures
        final(out)@ == old(out)@ + s@,
{
    let cs = chars_of(s);
    let ghost start = out@;
    let mut i: usize = 0;
    while i < cs.len()
        invariant
            cs@ == s@,
            i <= cs@.len(),
            out@ == start + cs@.take(i as int),
        decreases cs@.len() - i,
    {
        out.push(cs[i]);
        i = i + 1;
        assert(out@ =~= start + cs@.take(i as int));
    }
    assert(cs@.take(cs@.len() as int) =~= cs@);
}

/// Characters with the Unicode `White_Space` property, those that
/// `char::is_whitespace` accepts and `str::trim` removes.
pub open spec fn is_whitespace(c: char) -> bool {
    ||| '\t' <= c && c <= '\r'
    ||| c == ' '
    ||| c == '\u{85}'
    ||| c == '\u{a0}'
    ||| c == '\u{1680}'
    ||| '\u{2000}' <= c && c <= '\u{200a}'
    ||| c == '\u{2028}'
    ||| c == '\u{2029}'
    ||| c == '\u{202f}'
    ||| c == '\u{205f}'
    ||| c == '\u{3000}'
}

/// `s` without leading whitespace.
pub open spec fn trim_start(s: Seq<char>) -> Seq<char>
    decreases s.len(),
{
    if s.len() > 0 && is_whitespace(s[0]) {
        trim_start(s.drop_first())
    } else {
        s
    }
}

/// `s` without trailing whitespace.
pub open spec fn trim_end(s: Seq<char>) -> Seq<char>
    decreases s.len(),
{
    if s.len() > 0 && is_whitespace(s.last()) {
        trim_end(s.drop_last())
    } else {
        s
    }
}

/// `s` without leading and trailing whitespace.
pub open spec fn trim(s: Seq<char>) -> Seq<char> {
    trim_end(trim_start(s))
}

proof fn lemma_trim_start_head(s: Seq<char>)
    ensures
        trim_start(s).len() == 0 || !is_whitespace(trim_start(s)[0]),
    decreases s.len(),
{
    if s.len() > 0 && is_whitespace(s[0]) {
        lemma_trim_start_head(s.drop_first());
    }
}

proof fn lemma_trim_end_prefix(s: Seq<char>)
    ensures
        trim_end(s) == s.take(trim_end(s).len() as int),
        trim_end(s).len() <= s.len(),
        trim_end(s).len() == 0 || !is_whitespace(trim_end(s).last()),
    decreases s.len(),
{
    if s.len() > 0 && is_whitespace(s.last()) {
        lemma_trim_end_prefix(s.drop_last());
        assert(s.drop_last().take(trim_end(s).len() as int) =~= s.take(trim_end(s).len() as int));
    } else {
        assert(s.take(s.len() as int) =~= s);
    }
}

/// Trimming twice changes nothing: a trimmed text neither starts nor ends
/// with whitespace.
pub proof fn lemma_trim_idempotent(s: Seq<char>)
    ensures
        trim(trim(s)) == trim(s),
        trim(s).len() == 0 || (!is_whitespace(trim(s)[0]) && !is_whitespace(trim(s).last())),
{
    let x = trim_start(s);
    let t = trim_end(x);
    lemma_trim_start_head(s);
    lemma_trim_end_prefix(x);
    if t.len() > 0 {
        assert(t[0] == x[0]);
        assert(trim_start(t) == t);
        assert(trim_end(t) == t);
    } else {
        assert(trim_start(t) == t);
        assert(trim_end(t) == t);
    }
}

fn is_whitespace_exec(c: char) -> (res: bool)
    ensures
        res == is_whitespace(c),
{
    ('\t' <= c && c <= '\r') || c == ' ' || c == '\u{85}' || c == '\u{a0}' || c == '\u{1680}'
        || ('\u{2000}' <= c && c <= '\u{200a}') || c == '\u{2028}' || c == '\u{2029}'
        || c == '\u{202f}' || c == '\u{205f}' || c == '\u{3000}'
}

/// The characters of `s` without leading and trailing whitespace.
pub fn trimmed_chars(s: &str) -> (res: Vec<char>)
    ensures
        res@ == trim(s@),
{
    let cs = chars_of(s);
    let n = cs.len();
    let mut start: usize = 0;
    assert(s@.skip(0) =~= s@);
    while start < n && is_whitespace_exec(cs[start])
        invariant
            cs@ == s@,
            n == cs@.len(),
            start <= n,
            trim_start(s@) == trim_start(s@.skip(start as int)),
        decreases n - start,
    {
        assert(s@.skip(start as int).drop_first() =~= s@.skip(start + 1));
        start = start + 1;
    }
    let ghost rest = s@.skip(start as int);
    assert(trim_start(rest) == rest);
    let mut end: usize = n;
    assert(rest =~= s@.subrange(start as int, n as int));
    while end > start && is_whitespace_exec(cs[end - 1])
        invariant
            cs@ == s@,
            n == cs@.len(),
            start <= end <= n,
            rest == s@.skip(start as int),
            trim_end(rest) == trim_end(s@.subrange(start as int, end as int)),
        decreases end - start,
    {
        assert(s@.subrange(start as int, end as int).drop_last() =~= s@.subrange(start as int, end - 1));
        end = end - 1;
    }
    let mut res: Vec<char> = Vec::new();
    let mut i: usize = start;
    while i < end
        invariant
            cs@ == s@,
            start <= i <= end <= n,
            n == cs@.len(),
            res@ == s@.subrange(start as int, i as int),
        decreases end - i,
    {
        res.push(cs[i]);
        i = i + 1;
        assert(res@ =~= s@.subrange(start as int, i as int));
    }
    assert(rest =~= s@.subrange(start as int, n as int));
    res
}

/// Whether two string slices hold the same characters.
pub fn str_equal(a: &str, b: &str) -> (res: bool)
    ensures
        res == (a@ == b@),
{
    let x = chars_of(a);
    let y = chars_of(b);
    if x.len() != y.len() {
        return false;
    }
    let mut i: usize = 0;
    while i < x.len()
        invariant
            x@ == a@,
            y@ == b@,
            x@.len() == y@.len(),
            i <= x@.len(),
            forall|j: int| 0 <= j < i ==> x@[j] == y@[j],
        decreases x@.len() - i,
    {
        if x[i] != y[i] {
            return false;
        }
        i = i + 1;
    }
    assert(x@ =~= y@);
    true
}

/// Lower-case hexadecimal digit of `n` (below 16).
pub open spec fn hex_digit(n: int) -> char {
    if n < 10 { (48 + n) as char } else { (87 + n) as char }
}

/// The lower-case hexadecimal digit of `n`.
pub fn hex_digit_char(n: u32) -> (c: char)
    requires
        n < 16,
    ensures
        c == hex_digit(n as int),
{
    if n < 10 {
        (48 + n as u8) as char
    } else {
        (87 + n as u8) as char
    }
}
} // verus!
