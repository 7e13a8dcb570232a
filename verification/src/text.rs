//! Text primitives shared by the query model, the SPARQL writer and the
//! validator: decimal rendering, quoting, trimming, joining and line splitting,
//! each with the mathematical statement of what it computes.
use vstd::prelude::*;

verus! {

// ---------------------------------------------------------------------------
// Character classes
// ---------------------------------------------------------------------------

/// Whether `char::is_alphanumeric` holds of a character (Unicode `Alphabetic`
/// or `Numeric`). The Unicode tables are not restated here.
pub uninterp spec fn unicode_alphanumeric(c: char) -> bool;

/// An ASCII letter or digit.
pub open spec fn ascii_alphanumeric(c: char) -> bool {
    ('a' <= c && c <= 'z') || ('A' <= c && c <= 'Z') || ('0' <= c && c <= '9')
}

/// Calls `char::is_alphanumeric`; the contract ties the answer to the name
/// `unicode_alphanumeric`, and of the Unicode tables states only that among
/// ASCII characters exactly the letters and digits are alphanumeric.
#[verifier::external_body]
pub fn is_alphanumeric(c: char) -> (r: bool)
    ensures
        r == unicode_alphanumeric(c),
        (c as u32) < 128 ==> (r <==> ascii_alphanumeric(c)),
{
    c.is_alphanumeric()
}

/// Appends one character; calls `String::push`, which std documents as
/// appending the given char to the end of the string.
#[verifier::external_body]
pub fn push_char(s: &mut String, c: char)
    ensures
        final(s)@ == old(s)@.push(c),
{
    s.push(c)
}

/// Appends a string slice.
pub fn push_str(s: &mut String, t: &str)
    ensures
        final(s)@ == old(s)@ + t@,
{
    s.append(t);
}

/// Equality of two string slices; calls `<str as PartialEq>::eq`, which
/// compares the two texts character by character.
#[verifier::external_body]
pub fn str_eq(a: &str, b: &str) -> (r: bool)
    ensures
        r == (a@ == b@),
{
    a == b
}

/// What `{:?}` prints for a string slice (the text in double quotes with
/// std's debug escaping). The escaping rules are not restated here.
pub uninterp spec fn debug_quoted(s: Seq<char>) -> Seq<char>;

/// Renders a string slice with `{:?}`; the result is tied to the name
/// `debug_quoted` of the slice's characters.
#[verifier::external_body]
pub fn debug_str(s: &str) -> (r: String)
    ensures
        r@ == debug_quoted(s@),
{
    format!("{:?}", s)
}

/// A fresh copy of a string slice.
pub fn text(s: &str) -> (r: String)
    ensures
        r@ == s@,
{
    s.to_owned()
}

// ---------------------------------------------------------------------------
// Decimal numbers
// ---------------------------------------------------------------------------

pub open spec fn digit_char(d: nat) -> char
    recommends
        d < 10,
{
    ((48 + d) as u8) as char
}

/// Decimal digits of a natural number, most significant first, no padding.
pub open spec fn decimal(n: nat) -> Seq<char>
    decreases n,
{
    if n < 10 {
        seq![digit_char(n)]
    } else {
        decimal(n / 10).push(digit_char(n % 10))
    }
}

/// Decimal text of an integer, with a leading `-` for negative values.
pub open spec fn signed_decimal(i: int) -> Seq<char> {
    if i < 0 {
        seq!['-'] + decimal((-i) as nat)
    } else {
        decimal(i as nat)
    }
}

pub proof fn lemma_decimal_nonempty(n: nat)
    ensures
        decimal(n).len() >= 1,
    decreases n,
{
    if n >= 10 {
        lemma_decimal_nonempty(n / 10);
    }
}

/// Decimal text of an unsigned number (what `{}` prints for it).
pub fn decimal_text(n: u64) -> (r: String)
    ensures
        r@ == decimal(n as nat),
{
    // collect digits least significant first
    let mut digits: Vec<char> = Vec::new();
    let mut m: u64 = n;
    loop
        invariant_except_break
            m <= n,
            decimal(n as nat) == decimal(m as nat) + digits@.reverse(),
        ensures
            decimal(n as nat) == digits@.reverse(),
        decreases m,
    {
        let d: u64 = m % 10;
        let c: char = if d == 0 { '0' } else if d == 1 { '1' } else if d == 2 { '2' } else if d
            == 3 {
            '3'
        } else if d == 4 {
            '4'
        } else if d == 5 {
            '5'
        } else if d == 6 {
            '6'
        } else if d == 7 {
            '7'
        } else if d == 8 {
            '8'
        } else {
            '9'
        };
        assert(c == digit_char(d as nat));
        let ghost old_digits = digits@;
        digits.push(c);
        assert(digits@.reverse() =~= seq![c] + old_digits.reverse());
        if m < 10 {
            assert(decimal(n as nat) == digits@.reverse());
            break;
        }
        let ghost old_m = m;
        m = m / 10;
        assert(decimal(old_m as nat) == decimal(m as nat).push(c));
        assert(decimal(n as nat) =~= decimal(m as nat) + digits@.reverse());
    }
    let mut out = String::new();
    let len = digits.len();
    let mut k: usize = len;
    while k > 0
        invariant
            k <= len,
            len == digits@.len(),
            decimal(n as nat) == digits@.reverse(),
            out@ =~= digits@.reverse().take((len - k) as int),
        decreases k,
    {
        k = k - 1;
        push_char(&mut out, digits[k]);
        assert(digits@.reverse().take((len - k) as int) =~= digits@.reverse().take(
            (len - k - 1) as int,
        ).push(digits@[k as int]));
    }
    assert(digits@.reverse().take(len as int) =~= digits@.reverse());
    out
}

/// Decimal text of a signed number (what `{}` prints for it).
pub fn signed_decimal_text(i: i64) -> (r: String)
    ensures
        r@ == signed_decimal(i as int),
{
    if i < 0 {
        let magnitude: u64 = (0i128 - (i as i128)) as u64;
        let digits = decimal_text(magnitude);
        let mut out = text("-");
        proof {
            reveal_strlit("-");
        }
        push_str(&mut out, digits.as_str());
        assert(out@ =~= seq!['-'] + decimal((-i) as nat));
        out
    } else {
        decimal_text(i as u64)
    }
}

// ---------------------------------------------------------------------------
// Quoting and trimming
// ---------------------------------------------------------------------------

/// Every `"` preceded by a backslash (what `replace('"', "\\\"")` gives).
pub open spec fn escape_quotes(s: Seq<char>) -> Seq<char>
    decreases s.len(),
{
    if s.len() == 0 {
        seq![]
    } else if s.last() == '"' {
        escape_quotes(s.drop_last()) + seq!['\\', '"']
    } else {
        escape_quotes(s.drop_last()).push(s.last())
    }
}

pub fn escape_quotes_text(s: &str) -> (r: String)
    ensures
        r@ == escape_quotes(s@),
{
    let mut out = String::new();
    for c in it: s.chars()
        invariant
            it.seq() == s@,
            out@ == escape_quotes(s@.take(it.index() as int)),
    {
        let ghost i = it.index();
        assert(s@.take(i + 1).drop_last() =~= s@.take(i as int));
        if c == '"' {
            push_char(&mut out, '\\');
            push_char(&mut out, '"');
            assert(out@ =~= escape_quotes(s@.take(i as int)) + seq!['\\', '"']);
        } else {
            push_char(&mut out, c);
        }
    }
    assert(s@.take(s@.len() as int) =~= s@);
    out
}

/// Leading `"` characters removed.
pub open spec fn trim_start_quotes(s: Seq<char>) -> Seq<char>
    decreases s.len(),
{
    if s.len() > 0 && s[0] == '"' {
        trim_start_quotes(s.drop_first())
    } else {
        s
    }
}

/// Trailing `"` characters removed.
pub open spec fn trim_end_quotes(s: Seq<char>) -> Seq<char>
    decreases s.len(),
{
    if s.len() > 0 && s.last() == '"' {
        trim_end_quotes(s.drop_last())
    } else {
        s
    }
}

/// All leading and trailing `"` removed (what `trim_matches('"')` gives).
pub open spec fn trim_quotes(s: Seq<char>) -> Seq<char> {
    trim_end_quotes(trim_start_quotes(s))
}

proof fn lemma_trim_start_skip(s: Seq<char>, k: int)
    requires
        0 <= k <= s.len(),
        forall|j: int| 0 <= j < k ==> s[j] == '"',
    ensures
        trim_start_quotes(s) == trim_start_quotes(s.skip(k)),
    decreases k,
{
    if k > 0 {
        assert(s.skip(1) =~= s.drop_first());
        lemma_trim_start_skip(s.drop_first(), k - 1);
        assert(s.drop_first().skip(k - 1) =~= s.skip(k));
    } else {
        assert(s.skip(0) =~= s);
    }
}

proof fn lemma_trim_end_take(s: Seq<char>, k: int)
    requires
        0 <= k <= s.len(),
        forall|j: int| k <= j < s.len() ==> s[j] == '"',
    ensures
        trim_end_quotes(s) == trim_end_quotes(s.take(k)),
    decreases s.len() - k,
{
    if k < s.len() {
        lemma_trim_end_take(s.drop_last(), k);
        assert(s.drop_last().take(k) =~= s.take(k));
    } else {
        assert(s.take(k) =~= s);
    }
}

pub fn trim_quotes_text(s: &str) -> (r: String)
    ensures
        r@ == trim_quotes(s@),
{
    let chars = chars_of(s);
    let n = chars.len();
    let mut a: usize = 0;
    while a < n && chars[a] == '"'
        invariant
            a <= n,
            n == chars@.len(),
            forall|j: int| 0 <= j < a ==> chars@[j] == '"',
        decreases n - a,
    {
        a = a + 1;
    }
    proof {
        lemma_trim_start_skip(chars@, a as int);
        assert(trim_start_quotes(chars@.skip(a as int)) == chars@.skip(a as int));
    }
    let mut b: usize = n;
    while b > a && chars[b - 1] == '"'
        invariant
            a <= b <= n,
            n == chars@.len(),
            forall|j: int| b <= j < n ==> chars@[j] == '"',
        decreases b,
    {
        b = b - 1;
    }
    let ghost t = chars@.skip(a as int);
    proof {
        lemma_trim_end_take(t, (b - a) as int);
        assert(t.take((b - a) as int) =~= chars@.subrange(a as int, b as int));
        if b > a {
            assert(chars@.subrange(a as int, b as int).last() == chars@[b - 1]);
        }
    }
    let mut out = String::new();
    let mut k: usize = a;
    while k < b
        invariant
            a <= k <= b <= n,
            n == chars@.len(),
            out@ =~= chars@.subrange(a as int, k as int),
        decreases b - k,
    {
        push_char(&mut out, chars[k]);
        k = k + 1;
    }
    out
}

/// The characters of a string slice, in order.
pub fn chars_of(s: &str) -> (r: Vec<char>)
    ensures
        r@ == s@,
{
    let mut out: Vec<char> = Vec::new();
    for c in it: s.chars()
        invariant
            it.seq() == s@,
            out@ == s@.take(it.index() as int),
    {
        out.push(c);
        assert(out@ =~= s@.take(it.index() + 1));
    }
    assert(s@.take(s@.len() as int) =~= s@);
    out
}

// ---------------------------------------------------------------------------
// Sequences of texts
// ---------------------------------------------------------------------------

/// The character views of a sequence of strings.
pub open spec fn texts(v: Seq<String>) -> Seq<Seq<char>> {
    v.map_values(|s: String| s@)
}

pub proof fn lemma_texts_push(v: Seq<String>, s: String)
    ensures
        texts(v.push(s)) == texts(v).push(s@),
{
    assert(texts(v.push(s)) =~= texts(v).push(s@));
}

/// The parts in order with `sep` between neighbours (what `join` gives).
pub open spec fn join(parts: Seq<Seq<char>>, sep: Seq<char>) -> Seq<char>
    decreases parts.len(),
{
    if parts.len() == 0 {
        seq![]
    } else if parts.len() == 1 {
        parts[0]
    } else {
        join(parts.drop_last(), sep) + sep + parts.last()
    }
}

/// The parts written one after another.
pub open spec fn concat(parts: Seq<Seq<char>>) -> Seq<char>
    decreases parts.len(),
{
    if parts.len() == 0 {
        seq![]
    } else {
        concat(parts.drop_last()) + parts.last()
    }
}

pub proof fn lemma_concat_push(parts: Seq<Seq<char>>, x: Seq<char>)
    ensures
        concat(parts.push(x)) == concat(parts) + x,
{
    assert(parts.push(x).drop_last() =~= parts);
}

pub proof fn lemma_concat_append(a: Seq<Seq<char>>, b: Seq<Seq<char>>)
    ensures
        concat(a + b) == concat(a) + concat(b),
    decreases b.len(),
{
    if b.len() == 0 {
        assert(a + b =~= a);
        assert(concat(a) + concat(b) =~= concat(a));
    } else {
        lemma_concat_append(a, b.drop_last());
        assert((a + b).drop_last() =~= a + b.drop_last());
        assert(concat(a) + concat(b) =~= concat(a) + concat(b.drop_last()) + b.last());
    }
}

pub proof fn lemma_join_push(parts: Seq<Seq<char>>, sep: Seq<char>, x: Seq<char>)
    ensures
        parts.len() == 0 ==> join(parts.push(x), sep) == x,
        parts.len() > 0 ==> join(parts.push(x), sep) == join(parts, sep) + sep + x,
{
    assert(parts.push(x).drop_last() =~= parts);
    if parts.len() == 0 {
        assert(parts.push(x)[0] == x);
    }
}

/// The strings of `parts` with `sep` between neighbours.
pub fn join_texts(parts: &Vec<String>, sep: &str) -> (r: String)
    ensures
        r@ == join(texts(parts@), sep@),
{
    let mut out = String::new();
    let n = parts.len();
    let mut i: usize = 0;
    while i < n
        invariant
            i <= n,
            n == parts@.len(),
            out@ == join(texts(parts@).take(i as int), sep@),
        decreases n - i,
    {
        let ghost prefix = texts(parts@).take(i as int);
        assert(texts(parts@).take(i + 1) =~= prefix.push(parts@[i as int]@));
        proof {
            lemma_join_push(prefix, sep@, parts@[i as int]@);
        }
        if i > 0 {
            push_str(&mut out, sep);
        }
        push_str(&mut out, parts[i].as_str());
        i = i + 1;
    }
    assert(texts(parts@).take(n as int) =~= texts(parts@));
    out
}

// ---------------------------------------------------------------------------
// Lines
// ---------------------------------------------------------------------------

/// A line with one trailing carriage return removed, if it has one.
pub open spec fn strip_cr(line: Seq<char>) -> Seq<char> {
    if line.len() > 0 && line.last() == '\r' {
        line.drop_last()
    } else {
        line
    }
}

/// The lines of a text as `str::lines` yields them: split at `\n`, a `\r`
/// right before a `\n` dropped, and no empty line after a final `\n`.
/// `pending` is the part of the current line read so far.
pub open spec fn lines_from(pending: Seq<char>, rest: Seq<char>) -> Seq<Seq<char>>
    decreases rest.len(),
{
    if rest.len() == 0 {
        if pending.len() == 0 {
            seq![]
        } else {
            seq![pending]
        }
    } else if rest[0] == '\n' {
        seq![strip_cr(pending)] + lines_from(seq![], rest.drop_first())
    } else {
        lines_from(pending.push(rest[0]), rest.drop_first())
    }
}

pub open spec fn lines(s: Seq<char>) -> Seq<Seq<char>> {
    lines_from(seq![], s)
}

/// Removes a final carriage return from a string.
fn strip_cr_text(line: String) -> (r: String)
    ensures
        r@ == strip_cr(line@),
{
    let chars = chars_of(line.as_str());
    let n = chars.len();
    if n > 0 && chars[n - 1] == '\r' {
        let mut out = String::new();
        let mut k: usize = 0;
        while k < n - 1
            invariant
                k <= n - 1,
                n == chars@.len(),
                n > 0,
                out@ =~= chars@.take(k as int),
            decreases n - 1 - k,
        {
            push_char(&mut out, chars[k]);
            k = k + 1;
        }
        assert(chars@.take((n - 1) as int) =~= chars@.drop_last());
        out
    } else {
        line
    }
}

/// The lines of `s`, as `str::lines` yields them.
pub fn lines_of(s: &str) -> (r: Vec<String>)
    ensures
        texts(r@) == lines(s@),
{
    let chars = chars_of(s);
    let n = chars.len();
    let mut out: Vec<String> = Vec::new();
    let mut pending = String::new();
    let mut i: usize = 0;
    assert(chars@.skip(0) =~= chars@);
    assert(texts(out@) =~= Seq::<Seq<char>>::empty());
    while i < n
        invariant
            i <= n,
            n == chars@.len(),
            chars@ == s@,
            texts(out@) + lines_from(pending@, chars@.skip(i as int)) == lines(s@),
        decreases n - i,
    {
        let ghost rest = chars@.skip(i as int);
        assert(rest[0] == chars@[i as int]);
        assert(rest.drop_first() =~= chars@.skip(i + 1));
        if chars[i] == '\n' {
            let line = strip_cr_text(pending);
            let ghost before = texts(out@);
            out.push(line);
            assert(texts(out@) =~= before.push(line@));
            assert(texts(out@) + lines_from(seq![], chars@.skip(i + 1)) =~= before + (seq![
                line@,
            ] + lines_from(seq![], chars@.skip(i + 1))));
            pending = String::new();
        } else {
            push_char(&mut pending, chars[i]);
        }
        i = i + 1;
    }
    assert(chars@.skip(n as int) =~= Seq::<char>::empty());
    if !pending.as_str().is_empty() {
        let ghost before = texts(out@);
        out.push(pending);
        assert(texts(out@) =~= before.push(out@[out@.len() - 1]@));
    } else {
        assert(texts(out@) + Seq::<Seq<char>>::empty() =~= texts(out@));
    }
    out
}

} // verus!
